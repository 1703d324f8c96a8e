//! Closed types: the representation that descriptors carry at run time, and the rules by which
//! graph edges supply an input.

use vstd::prelude::*;

use crate::substitution::{occurs, some_field_occurs, some_occurs};
use crate::text::same;
use crate::types::{fields_view, types_view, MagType, SType};

verus! {

/// The single runtime-safe semantic type representation. Unlike `MagType`, this cannot contain
/// inference variables, placeholders, or executable types.
#[derive(Debug)]
pub enum ConcreteType {
    JsonValue,
    Unit,
    Bool,
    Int,
    Float,
    String,
    Named { name: String, arguments: Vec<ConcreteType>, body: ConcreteNamedBody },
    Adt { name: String, arguments: Vec<ConcreteType>, constructors: Vec<ConcreteConstructor> },
    List { item: Box<ConcreteType> },
    SetOf { item: Box<ConcreteType> },
    MapOf { key: Box<ConcreteType>, value: Box<ConcreteType> },
    /// The fields in the order of their names.
    Record { fields: Vec<(String, ConcreteType)> },
    Product { items: Vec<ConcreteType> },
}

/// What a nominal type stands for.
#[derive(Debug)]
pub enum ConcreteNamedBody {
    Fields { fields: Vec<(String, ConcreteType)> },
    Alias { ty: Box<ConcreteType> },
}

#[derive(Debug)]
pub struct ConcreteConstructor {
    pub name: String,
    pub payload: ConcreteType,
}

/// The model of a [`ConcreteType`].
#[verifier::ext_equal]
pub enum SConcrete {
    JsonValue,
    Unit,
    Bool,
    Int,
    Float,
    String,
    Named(Seq<char>, Seq<SConcrete>, SNamedBody),
    Adt(Seq<char>, Seq<SConcrete>, Seq<(Seq<char>, SConcrete)>),
    List(Box<SConcrete>),
    SetOf(Box<SConcrete>),
    MapOf(Box<SConcrete>, Box<SConcrete>),
    Record(Seq<(Seq<char>, SConcrete)>),
    Product(Seq<SConcrete>),
}

/// The model of a [`ConcreteNamedBody`].
#[verifier::ext_equal]
pub enum SNamedBody {
    Fields(Seq<(Seq<char>, SConcrete)>),
    Alias(Box<SConcrete>),
}

impl ConcreteType {
    pub open spec fn model(self) -> SConcrete
        decreases self,
    {
        match self {
            ConcreteType::JsonValue => SConcrete::JsonValue,
            ConcreteType::Unit => SConcrete::Unit,
            ConcreteType::Bool => SConcrete::Bool,
            ConcreteType::Int => SConcrete::Int,
            ConcreteType::Float => SConcrete::Float,
            ConcreteType::String => SConcrete::String,
            ConcreteType::Named { name, arguments, body } => SConcrete::Named(
                name@,
                concretes_view(arguments@),
                body.model(),
            ),
            ConcreteType::Adt { name, arguments, constructors } => SConcrete::Adt(
                name@,
                concretes_view(arguments@),
                constructors_view(constructors@),
            ),
            ConcreteType::List { item } => SConcrete::List(Box::new(item.model())),
            ConcreteType::SetOf { item } => SConcrete::SetOf(Box::new(item.model())),
            ConcreteType::MapOf { key, value } => SConcrete::MapOf(
                Box::new(key.model()),
                Box::new(value.model()),
            ),
            ConcreteType::Record { fields } => SConcrete::Record(concrete_fields_view(fields@)),
            ConcreteType::Product { items } => SConcrete::Product(concretes_view(items@)),
        }
    }
}

impl ConcreteNamedBody {
    pub open spec fn model(self) -> SNamedBody
        decreases self,
    {
        match self {
            ConcreteNamedBody::Fields { fields } => SNamedBody::Fields(
                concrete_fields_view(fields@),
            ),
            ConcreteNamedBody::Alias { ty } => SNamedBody::Alias(Box::new(ty.model())),
        }
    }
}

pub open spec fn concretes_view(items: Seq<ConcreteType>) -> Seq<SConcrete>
    decreases items,
{
    Seq::new(
        items.len(),
        |i: int|
            if 0 <= i < items.len() {
                items[i].model()
            } else {
                arbitrary()
            },
    )
}

pub open spec fn concrete_fields_view(items: Seq<(String, ConcreteType)>) -> Seq<
    (Seq<char>, SConcrete),
>
    decreases items,
{
    Seq::new(
        items.len(),
        |i: int|
            if 0 <= i < items.len() {
                (items[i].0@, items[i].1.model())
            } else {
                arbitrary()
            },
    )
}

pub open spec fn constructors_view(items: Seq<ConcreteConstructor>) -> Seq<(Seq<char>, SConcrete)>
    decreases items,
{
    Seq::new(
        items.len(),
        |i: int|
            if 0 <= i < items.len() {
                (items[i].name@, items[i].payload.model())
            } else {
                arbitrary()
            },
    )
}

impl View for ConcreteType {
    type V = SConcrete;

    open spec fn view(&self) -> SConcrete {
        self.model()
    }
}

impl View for ConcreteNamedBody {
    type V = SNamedBody;

    open spec fn view(&self) -> SNamedBody {
        self.model()
    }
}

impl Clone for ConcreteType {
    fn clone(&self) -> (r: ConcreteType)
        ensures
            r@ == self@,
        decreases self,
    {
        match self {
            ConcreteType::JsonValue => ConcreteType::JsonValue,
            ConcreteType::Unit => ConcreteType::Unit,
            ConcreteType::Bool => ConcreteType::Bool,
            ConcreteType::Int => ConcreteType::Int,
            ConcreteType::Float => ConcreteType::Float,
            ConcreteType::String => ConcreteType::String,
            ConcreteType::Named { name, arguments, body } => ConcreteType::Named {
                name: name.clone(),
                arguments: clone_concretes(arguments),
                body: body.clone(),
            },
            ConcreteType::Adt { name, arguments, constructors } => ConcreteType::Adt {
                name: name.clone(),
                arguments: clone_concretes(arguments),
                constructors: clone_constructors(constructors),
            },
            ConcreteType::List { item } => ConcreteType::List { item: Box::new((**item).clone()) },
            ConcreteType::SetOf { item } => ConcreteType::SetOf { item: Box::new((**item).clone()) },
            ConcreteType::MapOf { key, value } => ConcreteType::MapOf {
                key: Box::new((**key).clone()),
                value: Box::new((**value).clone()),
            },
            ConcreteType::Record { fields } => ConcreteType::Record {
                fields: clone_concrete_fields(fields),
            },
            ConcreteType::Product { items } => ConcreteType::Product {
                items: clone_concretes(items),
            },
        }
    }
}

impl Clone for ConcreteNamedBody {
    fn clone(&self) -> (r: ConcreteNamedBody)
        ensures
            r@ == self@,
        decreases self,
    {
        match self {
            ConcreteNamedBody::Fields { fields } => ConcreteNamedBody::Fields {
                fields: clone_concrete_fields(fields),
            },
            ConcreteNamedBody::Alias { ty } => ConcreteNamedBody::Alias {
                ty: Box::new((**ty).clone()),
            },
        }
    }
}

impl Clone for ConcreteConstructor {
    fn clone(&self) -> (r: ConcreteConstructor)
        ensures
            r.name@ == self.name@,
            r.payload@ == self.payload@,
        decreases self,
    {
        ConcreteConstructor { name: self.name.clone(), payload: self.payload.clone() }
    }
}

pub fn clone_concretes(items: &Vec<ConcreteType>) -> (r: Vec<ConcreteType>)
    ensures
        concretes_view(r@) == concretes_view(items@),
    decreases items,
{
    let mut r: Vec<ConcreteType> = Vec::new();
    let mut i: usize = 0;
    while i < items.len()
        invariant
            i <= items.len(),
            r.len() == i,
            forall|j: int| 0 <= j < i ==> (#[trigger] r@[j])@ == items@[j]@,
        decreases items.len() - i,
    {
        r.push(items[i].clone());
        i = i + 1;
    }
    assert(concretes_view(r@) =~= concretes_view(items@));
    r
}

pub fn clone_concrete_fields(items: &Vec<(String, ConcreteType)>) -> (r: Vec<
    (String, ConcreteType),
>)
    ensures
        concrete_fields_view(r@) == concrete_fields_view(items@),
    decreases items,
{
    let mut r: Vec<(String, ConcreteType)> = Vec::new();
    let mut i: usize = 0;
    while i < items.len()
        invariant
            i <= items.len(),
            r.len() == i,
            forall|j: int|
                0 <= j < i ==> (#[trigger] r@[j]).0@ == items@[j].0@ && r@[j].1@ == items@[j].1@,
        decreases items.len() - i,
    {
        r.push((items[i].0.clone(), items[i].1.clone()));
        i = i + 1;
    }
    assert(concrete_fields_view(r@) =~= concrete_fields_view(items@));
    r
}

pub fn clone_constructors(items: &Vec<ConcreteConstructor>) -> (r: Vec<ConcreteConstructor>)
    ensures
        constructors_view(r@) == constructors_view(items@),
    decreases items,
{
    let mut r: Vec<ConcreteConstructor> = Vec::new();
    let mut i: usize = 0;
    while i < items.len()
        invariant
            i <= items.len(),
            r.len() == i,
            forall|j: int|
                0 <= j < i ==> (#[trigger] r@[j]).name@ == items@[j].name@ && r@[j].payload@
                    == items@[j].payload@,
        decreases items.len() - i,
    {
        r.push(items[i].clone());
        i = i + 1;
    }
    assert(constructors_view(r@) =~= constructors_view(items@));
    r
}

impl ConcreteType {
    /// Whether two closed types are the same.
    pub fn equals(&self, other: &ConcreteType) -> (r: bool)
        ensures
            r == (self@ == other@),
        decreases self,
    {
        match (self, other) {
            (ConcreteType::JsonValue, ConcreteType::JsonValue) => true,
            (ConcreteType::Unit, ConcreteType::Unit) => true,
            (ConcreteType::Bool, ConcreteType::Bool) => true,
            (ConcreteType::Int, ConcreteType::Int) => true,
            (ConcreteType::Float, ConcreteType::Float) => true,
            (ConcreteType::String, ConcreteType::String) => true,
            (
                ConcreteType::Named { name: a, arguments: x, body: p },
                ConcreteType::Named { name: b, arguments: y, body: q },
            ) => same(a, b) && equal_concretes(x, y) && p.equals(q),
            (
                ConcreteType::Adt { name: a, arguments: x, constructors: p },
                ConcreteType::Adt { name: b, arguments: y, constructors: q },
            ) => same(a, b) && equal_concretes(x, y) && equal_constructors(p, q),
            (ConcreteType::List { item: a }, ConcreteType::List { item: b }) => a.equals(b),
            (ConcreteType::SetOf { item: a }, ConcreteType::SetOf { item: b }) => a.equals(b),
            (
                ConcreteType::MapOf { key: a, value: x },
                ConcreteType::MapOf { key: b, value: y },
            ) => a.equals(b) && x.equals(y),
            (ConcreteType::Record { fields: a }, ConcreteType::Record { fields: b }) => {
                equal_concrete_fields(a, b)
            },
            (ConcreteType::Product { items: a }, ConcreteType::Product { items: b }) => {
                equal_concretes(a, b)
            },
            _ => false,
        }
    }
}

impl ConcreteNamedBody {
    pub fn equals(&self, other: &ConcreteNamedBody) -> (r: bool)
        ensures
            r == (self@ == other@),
        decreases self,
    {
        match (self, other) {
            (
                ConcreteNamedBody::Fields { fields: a },
                ConcreteNamedBody::Fields { fields: b },
            ) => equal_concrete_fields(a, b),
            (ConcreteNamedBody::Alias { ty: a }, ConcreteNamedBody::Alias { ty: b }) => a.equals(b),
            _ => false,
        }
    }
}

pub fn equal_concretes(a: &Vec<ConcreteType>, b: &Vec<ConcreteType>) -> (r: bool)
    ensures
        r == (concretes_view(a@) == concretes_view(b@)),
    decreases a,
{
    if a.len() != b.len() {
        assert(concretes_view(a@).len() != concretes_view(b@).len());
        return false;
    }
    let mut i: usize = 0;
    while i < a.len()
        invariant
            i <= a.len(),
            a.len() == b.len(),
            forall|j: int| 0 <= j < i ==> (#[trigger] a@[j])@ == b@[j]@,
        decreases a.len() - i,
    {
        if !a[i].equals(&b[i]) {
            assert(concretes_view(a@)[i as int] != concretes_view(b@)[i as int]);
            return false;
        }
        i = i + 1;
    }
    assert(concretes_view(a@) =~= concretes_view(b@));
    true
}

pub fn equal_concrete_fields(
    a: &Vec<(String, ConcreteType)>,
    b: &Vec<(String, ConcreteType)>,
) -> (r: bool)
    ensures
        r == (concrete_fields_view(a@) == concrete_fields_view(b@)),
    decreases a,
{
    if a.len() != b.len() {
        assert(concrete_fields_view(a@).len() != concrete_fields_view(b@).len());
        return false;
    }
    let mut i: usize = 0;
    while i < a.len()
        invariant
            i <= a.len(),
            a.len() == b.len(),
            forall|j: int|
                0 <= j < i ==> (#[trigger] a@[j]).0@ == b@[j].0@ && a@[j].1@ == b@[j].1@,
        decreases a.len() - i,
    {
        if !same(&a[i].0, &b[i].0) || !a[i].1.equals(&b[i].1) {
            assert(concrete_fields_view(a@)[i as int] != concrete_fields_view(b@)[i as int]);
            return false;
        }
        i = i + 1;
    }
    assert(concrete_fields_view(a@) =~= concrete_fields_view(b@));
    true
}

pub fn equal_constructors(a: &Vec<ConcreteConstructor>, b: &Vec<ConcreteConstructor>) -> (r: bool)
    ensures
        r == (constructors_view(a@) == constructors_view(b@)),
    decreases a,
{
    if a.len() != b.len() {
        assert(constructors_view(a@).len() != constructors_view(b@).len());
        return false;
    }
    let mut i: usize = 0;
    while i < a.len()
        invariant
            i <= a.len(),
            a.len() == b.len(),
            forall|j: int|
                0 <= j < i ==> (#[trigger] a@[j]).name@ == b@[j].name@ && a@[j].payload@
                    == b@[j].payload@,
        decreases a.len() - i,
    {
        if !same(&a[i].name, &b[i].name) || !a[i].payload.equals(&b[i].payload) {
            assert(constructors_view(a@)[i as int] != constructors_view(b@)[i as int]);
            return false;
        }
        i = i + 1;
    }
    assert(constructors_view(a@) =~= constructors_view(b@));
    true
}

/// The open type of which a closed type is the resolved form: a nominal type and an algebraic one
/// keep their name and arguments alone.
pub open spec fn open_type(t: SConcrete) -> SType
    decreases t,
{
    match t {
        SConcrete::JsonValue => SType::JsonValue,
        SConcrete::Unit => SType::Unit,
        SConcrete::Bool => SType::Bool,
        SConcrete::Int => SType::Int,
        SConcrete::Float => SType::Float,
        SConcrete::String => SType::String,
        SConcrete::Named(name, arguments, _) => SType::Named(name, open_types(arguments)),
        SConcrete::Adt(name, arguments, _) => SType::Named(name, open_types(arguments)),
        SConcrete::List(item) => SType::List(Box::new(open_type(*item))),
        SConcrete::SetOf(item) => SType::SetOf(Box::new(open_type(*item))),
        SConcrete::MapOf(key, value) => SType::MapOf(
            Box::new(open_type(*key)),
            Box::new(open_type(*value)),
        ),
        SConcrete::Record(fields) => SType::Record(open_fields(fields)),
        SConcrete::Product(items) => SType::Product(open_types(items)),
    }
}

pub open spec fn open_types(items: Seq<SConcrete>) -> Seq<SType>
    decreases items,
{
    Seq::new(
        items.len(),
        |i: int|
            if 0 <= i < items.len() {
                open_type(items[i])
            } else {
                arbitrary()
            },
    )
}

pub open spec fn open_fields(fields: Seq<(Seq<char>, SConcrete)>) -> Seq<(Seq<char>, SType)>
    decreases fields,
{
    Seq::new(
        fields.len(),
        |i: int|
            if 0 <= i < fields.len() {
                (fields[i].0, open_type(fields[i].1))
            } else {
                arbitrary()
            },
    )
}

/// No variable occurs in what a closed type stands for.
pub proof fn closed_types_hold_no_variables(t: SConcrete, n: Seq<char>)
    ensures
        !occurs(open_type(t), n),
    decreases t,
{
    match t {
        SConcrete::Named(_, arguments, _) => {
            closed_items_hold_no_variables(arguments, n);
        },
        SConcrete::Adt(_, arguments, _) => {
            closed_items_hold_no_variables(arguments, n);
        },
        SConcrete::List(item) => {
            closed_types_hold_no_variables(*item, n);
        },
        SConcrete::SetOf(item) => {
            closed_types_hold_no_variables(*item, n);
        },
        SConcrete::MapOf(key, value) => {
            closed_types_hold_no_variables(*key, n);
            closed_types_hold_no_variables(*value, n);
        },
        SConcrete::Record(fields) => {
            assert forall|i: int| 0 <= i < open_fields(fields).len() implies !occurs(
                (#[trigger] open_fields(fields)[i]).1,
                n,
            ) by {
                closed_types_hold_no_variables(fields[i].1, n);
            }
            assert(!some_field_occurs(open_fields(fields), n));
        },
        SConcrete::Product(items) => {
            closed_items_hold_no_variables(items, n);
        },
        _ => {},
    }
}

proof fn closed_items_hold_no_variables(items: Seq<SConcrete>, n: Seq<char>)
    ensures
        !some_occurs(open_types(items), n),
    decreases items,
{
    assert forall|i: int| 0 <= i < open_types(items).len() implies !occurs(
        #[trigger] open_types(items)[i],
        n,
    ) by {
        closed_types_hold_no_variables(items[i], n);
    }
}

impl ConcreteType {
    pub fn to_mag_type(&self) -> (r: MagType)
        ensures
            r@ == open_type(self@),
        decreases self,
    {
        match self {
            ConcreteType::JsonValue => MagType::JsonValue,
            ConcreteType::Unit => MagType::Unit,
            ConcreteType::Bool => MagType::Bool,
            ConcreteType::Int => MagType::Int,
            ConcreteType::Float => MagType::Float,
            ConcreteType::String => MagType::String,
            ConcreteType::Named { name, arguments, .. } => {
                MagType::Named(name.clone(), to_mag_types(arguments))
            },
            ConcreteType::Adt { name, arguments, .. } => {
                MagType::Named(name.clone(), to_mag_types(arguments))
            },
            ConcreteType::List { item } => MagType::List(Box::new(item.to_mag_type())),
            ConcreteType::SetOf { item } => MagType::SetOf(Box::new(item.to_mag_type())),
            ConcreteType::MapOf { key, value } => MagType::MapOf(
                Box::new(key.to_mag_type()),
                Box::new(value.to_mag_type()),
            ),
            ConcreteType::Record { fields } => MagType::Record(to_mag_fields(fields)),
            ConcreteType::Product { items } => MagType::Product(to_mag_types(items)),
        }
    }
}

pub fn to_mag_types(items: &Vec<ConcreteType>) -> (r: Vec<MagType>)
    ensures
        types_view(r@) == open_types(concretes_view(items@)),
    decreases items,
{
    let mut r: Vec<MagType> = Vec::new();
    let mut i: usize = 0;
    while i < items.len()
        invariant
            i <= items.len(),
            r.len() == i,
            forall|j: int| 0 <= j < i ==> (#[trigger] r@[j])@ == open_type(items@[j]@),
        decreases items.len() - i,
    {
        r.push(items[i].to_mag_type());
        i = i + 1;
    }
    assert(types_view(r@) =~= open_types(concretes_view(items@)));
    r
}

pub fn to_mag_fields(items: &Vec<(String, ConcreteType)>) -> (r: Vec<(String, MagType)>)
    ensures
        fields_view(r@) == open_fields(concrete_fields_view(items@)),
    decreases items,
{
    let mut r: Vec<(String, MagType)> = Vec::new();
    let mut i: usize = 0;
    while i < items.len()
        invariant
            i <= items.len(),
            r.len() == i,
            forall|j: int|
                0 <= j < i ==> (#[trigger] r@[j]).0@ == items@[j].0@ && r@[j].1@ == open_type(
                    items@[j].1@,
                ),
        decreases items.len() - i,
    {
        r.push((items[i].0.clone(), items[i].1.to_mag_type()));
        i = i + 1;
    }
    assert(fields_view(r@) =~= open_fields(concrete_fields_view(items@)));
    r
}

/// Why the sources of an input do not determine an assignment.
#[derive(Debug, Clone, Copy, PartialEq, Eq, Structural)]
pub enum InputAssignmentError {
    IncompleteCoverage,
    AmbiguousCoverage,
}

impl InputAssignmentError {
    pub open spec fn message(self) -> Seq<char> {
        match self {
            InputAssignmentError::IncompleteCoverage
            => "incoming edge types do not completely cover the input"@,
            InputAssignmentError::AmbiguousCoverage
            => "incoming edge types ambiguously cover distinct input positions"@,
        }
    }

    /// The text of the error.
    pub fn text(&self) -> (r: &'static str)
        ensures
            r@ == self.message(),
    {
        match self {
            InputAssignmentError::IncompleteCoverage => {
                "incoming edge types do not completely cover the input"
            },
            InputAssignmentError::AmbiguousCoverage => {
                "incoming edge types ambiguously cover distinct input positions"
            },
        }
    }
}

/// Whether an input of type `expected` takes a value of type `actual` over one edge: the whole
/// value, or the value of one component of a product, at any depth.
pub open spec fn takes_edge(expected: SConcrete, actual: SConcrete) -> bool
    decreases expected,
{
    ||| expected == actual
    ||| match expected {
        SConcrete::Product(items) => some_takes_edge(items, actual),
        _ => false,
    }
}

pub open spec fn some_takes_edge(items: Seq<SConcrete>, actual: SConcrete) -> bool
    decreases items,
{
    exists|i: int| 0 <= i < items.len() && takes_edge(#[trigger] items[i], actual)
}

/// How many of the first `n` items are `t`.
pub open spec fn count_before(items: Seq<SConcrete>, t: SConcrete, n: nat) -> nat
    decreases n,
{
    if n == 0 {
        0
    } else {
        count_before(items, t, (n - 1) as nat) + if items[n - 1] == t {
            1nat
        } else {
            0nat
        }
    }
}

/// How many of the first `n` sources are not the whole input.
pub open spec fn components_before(input: SConcrete, sources: Seq<SConcrete>, n: nat) -> nat
    decreases n,
{
    if n == 0 {
        0
    } else {
        components_before(input, sources, (n - 1) as nat) + if sources[n - 1] == input {
            0nat
        } else {
            1nat
        }
    }
}

/// Whether position `p` of a product is the one that source `i` supplies: the occurrence of the
/// source's type that is as far along as the source is among the sources of that type.
pub open spec fn supplies(
    items: Seq<SConcrete>,
    sources: Seq<SConcrete>,
    i: int,
    p: int,
) -> bool {
    &&& 0 <= p < items.len()
    &&& items[p] == sources[i]
    &&& count_before(items, sources[i], p as nat) == count_before(sources, sources[i], i as nat)
}

/// Whether the sources cover the input: any positive number of whole values for an input that is
/// no product; for a product, either whole values alone, at least one of them unless the product
/// has no positions, or besides those one source for each position, every one of which has a
/// position to supply.
pub open spec fn covers(input: SConcrete, sources: Seq<SConcrete>) -> bool {
    match input {
        SConcrete::Product(items) => {
            ||| components_before(input, sources, sources.len()) == 0 && (sources.len() > 0
                || items.len() == 0)
            ||| components_cover(input, items, sources)
        },
        _ => sources.len() > 0 && forall|i: int|
            0 <= i < sources.len() ==> #[trigger] sources[i] == input,
    }
}

/// What the position of source `i` says: none for a whole value, else the position it supplies.
pub open spec fn assigned(
    input: SConcrete,
    sources: Seq<SConcrete>,
    i: int,
    position: Option<usize>,
) -> bool {
    match position {
        None => sources[i] == input,
        Some(p) => sources[i] != input && match input {
            SConcrete::Product(items) => supplies(items, sources, i, p as int),
            _ => false,
        },
    }
}

pub open spec fn components_cover(
    input: SConcrete,
    items: Seq<SConcrete>,
    sources: Seq<SConcrete>,
) -> bool {
    &&& components_before(input, sources, sources.len()) == items.len()
    &&& forall|i: int|
        0 <= i < sources.len() && #[trigger] sources[i] != input ==> has_position(items, sources, i)
}

/// Whether source `i` has a position to supply.
pub open spec fn has_position(items: Seq<SConcrete>, sources: Seq<SConcrete>, i: int) -> bool {
    exists|p: int| supplies(items, sources, i, p)
}

impl ConcreteType {
    /// Whether a value of type `actual` may stand where this type is expected: exactly when the
    /// types are the same.
    pub fn accepts(&self, actual: &ConcreteType) -> (r: bool)
        ensures
            r == (self@ == actual@),
        decreases self,
    {
        if self.equals(actual) {
            return true;
        }
        match (self, actual) {
            (ConcreteType::List { item: e }, ConcreteType::List { item: a }) => e.accepts(a),
            (ConcreteType::SetOf { item: e }, ConcreteType::SetOf { item: a }) => e.accepts(a),
            (
                ConcreteType::MapOf { key: ek, value: ev },
                ConcreteType::MapOf { key: ak, value: av },
            ) => ek.accepts(ak) && ev.accepts(av),
            (ConcreteType::Product { items: e }, ConcreteType::Product { items: a }) => {
                if e.len() != a.len() {
                    return false;
                }
                let mut i: usize = 0;
                while i < e.len()
                    invariant
                        i <= e.len(),
                        e.len() == a.len(),
                        self@ == SConcrete::Product(concretes_view(e@)),
                        actual@ == SConcrete::Product(concretes_view(a@)),
                        concretes_view(e@) != concretes_view(a@),
                        forall|j: int| 0 <= j < i ==> (#[trigger] e@[j])@ == a@[j]@,
                        decreases_to!(self => e@),
                    decreases e.len() - i,
                {
                    if !e[i].accepts(&a[i]) {
                        return false;
                    }
                    i = i + 1;
                }
                assert(concretes_view(e@) =~= concretes_view(a@));
                true
            },
            _ => false,
        }
    }

    /// Compatibility for one graph edge. A product consumer may receive the complete tuple or one
    /// source for a component occurrence.
    pub fn accepts_edge_source(&self, actual: &ConcreteType) -> (r: bool)
        ensures
            r == takes_edge(self@, actual@),
        decreases self,
    {
        if self.accepts(actual) {
            return true;
        }
        match self {
            ConcreteType::Product { items } => {
                let ghost model = concretes_view(items@);
                let mut i: usize = 0;
                while i < items.len()
                    invariant
                        i <= items.len(),
                        model == concretes_view(items@),
                        self@ == SConcrete::Product(model),
                        model.len() == items@.len(),
                        forall|j: int| 0 <= j < i ==> !takes_edge(#[trigger] model[j], actual@),
                        decreases_to!(self => items@),
                    decreases items.len() - i,
                {
                    if items[i].accepts_edge_source(actual) {
                        proof {
                            assert(takes_edge(model[i as int], actual@));
                            assert(some_takes_edge(model, actual@));
                        }
                        return true;
                    }
                    i = i + 1;
                }
                assert(!some_takes_edge(model, actual@));
                false
            },
            _ => false,
        }
    }

    /// Whether incoming edge types completely supply this input.
    pub fn input_is_covered_by(&self, sources: &Vec<ConcreteType>) -> (r: bool)
        ensures
            r == covers(self@, concretes_view(sources@)),
    {
        match self.assign_input_sources(sources) {
            Ok(_) => true,
            Err(_) => false,
        }
    }

    /// Assign every component edge to one ordered product occurrence. `None` identifies a
    /// whole-value edge; `Some(position)` identifies a component queue. Equal repeated components
    /// are assigned by source order. A component accepts its own type alone, so no two distinct
    /// components compete for one source and no assignment is ambiguous.
    pub fn assign_input_sources(&self, sources: &Vec<ConcreteType>) -> (r: Result<
        Vec<Option<usize>>,
        InputAssignmentError,
    >)
        ensures
            match r {
                Ok(positions) => {
                    &&& covers(self@, concretes_view(sources@))
                    &&& positions@.len() == sources@.len()
                    &&& forall|i: int|
                        0 <= i < sources@.len() ==> assigned(
                            self@,
                            concretes_view(sources@),
                            i,
                            #[trigger] positions@[i],
                        )
                },
                Err(e) => e is IncompleteCoverage && !covers(self@, concretes_view(sources@)),
            },
    {
        let ghost from = concretes_view(sources@);
        let mut result: Vec<Option<usize>> = Vec::new();
        let mut components: usize = 0;
        let mut i: usize = 0;
        while i < sources.len()
            invariant
                i <= sources.len(),
                from == concretes_view(sources@),
                components <= i,
                components == components_before(self@, from, i as nat),
                components == 0 ==> forall|j: int| 0 <= j < i ==> #[trigger] from[j] == self@,
                components > 0 ==> exists|j: int| 0 <= j < i && #[trigger] from[j] != self@,
                result@.len() == i,
                forall|j: int| 0 <= j < i ==> (#[trigger] result@[j]) is None,
            decreases sources.len() - i,
        {
            if !self.accepts(&sources[i]) {
                assert(from[i as int] != self@);
                components = components + 1;
            }
            result.push(None);
            i = i + 1;
        }
        match self {
            ConcreteType::Product { items } => {
                let ghost into = concretes_view(items@);
                assert(self@ == SConcrete::Product(into));
                assert(into.len() == items@.len());
                if components == 0 {
                    if sources.len() == 0 && items.len() > 0 {
                        return Err(InputAssignmentError::IncompleteCoverage);
                    }
                    assert(forall|j: int|
                        0 <= j < sources@.len() ==> assigned(self@, from, j, #[trigger] result@[j]));
                    return Ok(result);
                }
                if components != items.len() {
                    return Err(InputAssignmentError::IncompleteCoverage);
                }
                let mut k: usize = 0;
                while k < sources.len()
                    invariant
                        k <= sources.len(),
                        from == concretes_view(sources@),
                        into == concretes_view(items@),
                        self@ == SConcrete::Product(into),
                        result@.len() == sources@.len(),
                        components > 0,
                        components == components_before(self@, from, from.len()),
                        components == items.len(),
                        forall|j: int|
                            0 <= j < k ==> assigned(self@, from, j, #[trigger] result@[j]),
                        forall|j: int| k <= j < sources@.len() ==> (#[trigger] result@[j]) is None,
                    decreases sources.len() - k,
                {
                    if !self.accepts(&sources[k]) {
                        match occurrence(items, sources, k) {
                            Some(p) => {
                                result.set(k, Some(p));
                            },
                            None => {
                                assert(from[k as int] != self@);
                                assert(!has_position(into, from, k as int));
                                return Err(InputAssignmentError::IncompleteCoverage);
                            },
                        }
                    }
                    k = k + 1;
                }
                proof {
                    assert forall|j: int|
                        0 <= j < from.len() && #[trigger] from[j] != self@ implies has_position(
                        into,
                        from,
                        j,
                    ) by {
                        assert(result@[j] is Some);
                        assert(supplies(into, from, j, result@[j]->Some_0 as int));
                    }
                    assert(components_cover(self@, into, from));
                }
                Ok(result)
            },
            _ => {
                if sources.len() > 0 && components == 0 {
                    Ok(result)
                } else {
                    Err(InputAssignmentError::IncompleteCoverage)
                }
            },
        }
    }

    /// Whether one of the handlers takes the output over an edge.
    pub fn output_is_covered_by(&self, handlers: &Vec<ConcreteType>) -> (r: bool)
        ensures
            r == exists|i: int|
                0 <= i < handlers@.len() && takes_edge((#[trigger] handlers@[i])@, self@),
    {
        let mut i: usize = 0;
        while i < handlers.len()
            invariant
                i <= handlers.len(),
                forall|j: int| 0 <= j < i ==> !takes_edge((#[trigger] handlers@[j])@, self@),
            decreases handlers.len() - i,
        {
            if handlers[i].accepts_edge_source(self) {
                return true;
            }
            i = i + 1;
        }
        false
    }
}

/// The position that source `k` supplies.
fn occurrence(items: &Vec<ConcreteType>, sources: &Vec<ConcreteType>, k: usize) -> (r: Option<
    usize,
>)
    requires
        k < sources@.len(),
    ensures
        match r {
            Some(p) => supplies(
                concretes_view(items@),
                concretes_view(sources@),
                k as int,
                p as int,
            ),
            None => forall|p: int|
                !supplies(concretes_view(items@), concretes_view(sources@), k as int, p),
        },
{
    let ghost from = concretes_view(sources@);
    let ghost into = concretes_view(items@);
    let source = &sources[k];
    let mut earlier: usize = 0;
    let mut i: usize = 0;
    while i < k
        invariant
            i <= k,
            k < sources@.len(),
            from == concretes_view(sources@),
            source@ == from[k as int],
            earlier <= i,
            earlier == count_before(from, source@, i as nat),
        decreases k - i,
    {
        if sources[i].accepts(source) {
            earlier = earlier + 1;
        }
        i = i + 1;
    }
    let mut seen: usize = 0;
    let mut p: usize = 0;
    while p < items.len()
        invariant
            p <= items.len(),
            k < sources@.len(),
            from == concretes_view(sources@),
            into == concretes_view(items@),
            source@ == from[k as int],
            earlier == count_before(from, source@, k as nat),
            seen <= p,
            seen == count_before(into, source@, p as nat),
            forall|q: int| 0 <= q < p ==> !supplies(into, from, k as int, q),
        decreases items.len() - p,
    {
        if items[p].accepts(source) {
            if seen == earlier {
                return Some(p);
            }
            seen = seen + 1;
        }
        p = p + 1;
    }
    None
}

} // verus!
