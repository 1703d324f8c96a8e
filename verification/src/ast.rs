//! Checked programs and runtime values.

use std::sync::Arc;
use vstd::prelude::*;

use crate::concrete::{ConcreteType, SConcrete};
use crate::json::{Json, SJson};
use crate::text::{clone_names, same, strings};
use crate::types::{clone_types, types_view, MagType, SType};

verus! {

/// `Arc::clone` of the standard library: another handle on the same value.
#[verifier::external_body]
pub(crate) fn share<T>(value: &Arc<T>) -> (r: Arc<T>)
    ensures
        r == *value,
{
    Arc::clone(value)
}

#[derive(Debug, Clone, Copy, PartialEq, Eq, PartialOrd, Ord, Hash, Structural)]
pub struct BindingId(pub u64);

#[derive(Debug, Clone, Copy, PartialEq, Eq, PartialOrd, Ord, Hash, Structural)]
pub struct FrameId(pub u64);

/// A binary64 number: its bits, and its shortest decimal text.
#[derive(Debug)]
pub struct Float {
    pub bits: u64,
    pub text: String,
}

/// The model of a [`Float`].
#[verifier::ext_equal]
pub struct SFloat {
    pub bits: u64,
    pub text: Seq<char>,
}

impl View for Float {
    type V = SFloat;

    open spec fn view(&self) -> SFloat {
        SFloat { bits: self.bits, text: self.text@ }
    }
}

impl Clone for Float {
    fn clone(&self) -> (r: Float)
        ensures
            r@ == self@,
    {
        Float { bits: self.bits, text: self.text.clone() }
    }
}

#[derive(Debug)]
pub struct ConstructorDeclarationId {
    pub owner: String,
    pub name: String,
}

/// The model of a [`ConstructorDeclarationId`].
#[verifier::ext_equal]
pub struct SConstructorId {
    pub owner: Seq<char>,
    pub name: Seq<char>,
}

impl View for ConstructorDeclarationId {
    type V = SConstructorId;

    open spec fn view(&self) -> SConstructorId {
        SConstructorId { owner: self.owner@, name: self.name@ }
    }
}

impl Clone for ConstructorDeclarationId {
    fn clone(&self) -> (r: ConstructorDeclarationId)
        ensures
            r@ == self@,
    {
        ConstructorDeclarationId { owner: self.owner.clone(), name: self.name.clone() }
    }
}

impl ConstructorDeclarationId {
    pub fn equals(&self, other: &ConstructorDeclarationId) -> (r: bool)
        ensures
            r == (self@ == other@),
    {
        same(&self.owner, &other.owner) && same(&self.name, &other.name)
    }
}

#[derive(Debug)]
pub struct ConstructorDecl {
    pub id: ConstructorDeclarationId,
    pub payload: MagType,
}

/// The model of a [`ConstructorDecl`].
#[verifier::ext_equal]
pub struct SConstructor {
    pub id: SConstructorId,
    pub payload: SType,
}

impl View for ConstructorDecl {
    type V = SConstructor;

    open spec fn view(&self) -> SConstructor {
        SConstructor { id: self.id@, payload: self.payload@ }
    }
}

impl Clone for ConstructorDecl {
    fn clone(&self) -> (r: ConstructorDecl)
        ensures
            r@ == self@,
    {
        ConstructorDecl { id: self.id.clone(), payload: self.payload.clone() }
    }
}

#[derive(Debug)]
pub enum TypeDeclBody {
    /// A type under a name of its own.
    Nominal(MagType),
    Adt(Vec<ConstructorDecl>),
    Native,
}

/// The model of a [`TypeDeclBody`].
#[verifier::ext_equal]
pub enum SDeclBody {
    Nominal(SType),
    Adt(Seq<SConstructor>),
    Native,
}

pub open spec fn decl_constructors(items: Seq<ConstructorDecl>) -> Seq<SConstructor> {
    Seq::new(items.len(), |i: int| items[i]@)
}

impl View for TypeDeclBody {
    type V = SDeclBody;

    open spec fn view(&self) -> SDeclBody {
        match self {
            TypeDeclBody::Nominal(t) => SDeclBody::Nominal(t@),
            TypeDeclBody::Adt(c) => SDeclBody::Adt(decl_constructors(c@)),
            TypeDeclBody::Native => SDeclBody::Native,
        }
    }
}

pub fn clone_decl_constructors(items: &Vec<ConstructorDecl>) -> (r: Vec<ConstructorDecl>)
    ensures
        decl_constructors(r@) == decl_constructors(items@),
{
    let mut r: Vec<ConstructorDecl> = Vec::new();
    let mut i: usize = 0;
    while i < items.len()
        invariant
            i <= items.len(),
            r.len() == i,
            forall|j: int| 0 <= j < i ==> (#[trigger] r@[j])@ == items@[j]@,
        decreases items.len() - i,
    {
        r.push(items[i].clone());
        i = i + 1;
    }
    assert(decl_constructors(r@) =~= decl_constructors(items@));
    r
}

impl Clone for TypeDeclBody {
    fn clone(&self) -> (r: TypeDeclBody)
        ensures
            r@ == self@,
    {
        match self {
            TypeDeclBody::Nominal(t) => TypeDeclBody::Nominal(t.clone()),
            TypeDeclBody::Adt(c) => TypeDeclBody::Adt(clone_decl_constructors(c)),
            TypeDeclBody::Native => TypeDeclBody::Native,
        }
    }
}

#[derive(Debug)]
pub struct TypeDecl {
    pub name: String,
    pub params: Vec<String>,
    pub body: TypeDeclBody,
}

/// The model of a [`TypeDecl`].
#[verifier::ext_equal]
pub struct SDecl {
    pub name: Seq<char>,
    pub params: Seq<Seq<char>>,
    pub body: SDeclBody,
}

impl View for TypeDecl {
    type V = SDecl;

    open spec fn view(&self) -> SDecl {
        SDecl { name: self.name@, params: strings(self.params@), body: self.body@ }
    }
}

impl Clone for TypeDecl {
    fn clone(&self) -> (r: TypeDecl)
        ensures
            r@ == self@,
    {
        TypeDecl {
            name: self.name.clone(),
            params: clone_names(&self.params),
            body: self.body.clone(),
        }
    }
}

/// An expression whose names are resolved and whose type is known.
#[derive(Debug)]
pub struct CheckedExpr {
    pub ty: MagType,
    pub kind: CheckedExprKind,
}

#[derive(Debug)]
pub enum CheckedExprKind {
    Unit,
    Str(String),
    Int(i64),
    Float(Float),
    Bool(bool),
    Keyword(String),
    BindingRef(BindingId),
    Vector(Vec<CheckedExpr>),
    Fields(Vec<(String, CheckedExpr)>),
    If {
        condition: Box<CheckedExpr>,
        then_branch: Box<CheckedExpr>,
        else_branch: Box<CheckedExpr>,
    },
    Construct { owner: MagType, constructor: ConstructorDeclarationId, payload: Box<CheckedExpr> },
    Match { value: Box<CheckedExpr>, arms: Vec<CheckedMatchArm> },
    Call { callee: Box<CheckedExpr>, args: Vec<CheckedExpr> },
    Function(Arc<CheckedFn>),
    Ascribe { target: MagType, value: Box<CheckedExpr> },
    TypeTag(MagType),
}

#[derive(Debug)]
pub struct CheckedMatchArm {
    pub constructor: ConstructorDeclarationId,
    pub binding: CheckedParam,
    pub body: Box<CheckedExpr>,
}

#[derive(Debug)]
pub struct CheckedBlock {
    pub frame_layout: Vec<BindingId>,
    pub bindings: Vec<CheckedBinding>,
    pub expressions: Vec<CheckedExpr>,
}

#[derive(Debug)]
pub struct CheckedBinding {
    pub id: BindingId,
    pub name: String,
    pub ty: MagType,
    pub initializer: Arc<CheckedExpr>,
}

#[derive(Debug)]
pub struct CheckedParam {
    pub id: BindingId,
    pub name: String,
    pub ty: MagType,
}

#[derive(Debug)]
pub struct CheckedFn {
    pub name: Option<String>,
    pub type_params: Vec<String>,
    pub equality_params: Vec<String>,
    pub params: Vec<CheckedParam>,
    pub result: MagType,
    pub body: Arc<CheckedBlock>,
}

/// The model of a [`CheckedExpr`].
#[verifier::ext_equal]
pub struct SChecked {
    pub ty: SType,
    pub kind: SKind,
}

/// The model of a [`CheckedExprKind`].
#[verifier::ext_equal]
pub enum SKind {
    Unit,
    Str(Seq<char>),
    Int(i64),
    Float(SFloat),
    Bool(bool),
    Keyword(Seq<char>),
    BindingRef(BindingId),
    Vector(Seq<SChecked>),
    Fields(Seq<(Seq<char>, SChecked)>),
    If(Box<SChecked>, Box<SChecked>, Box<SChecked>),
    Construct(SType, SConstructorId, Box<SChecked>),
    Match(Box<SChecked>, Seq<SArm>),
    Call(Box<SChecked>, Seq<SChecked>),
    Function(SCheckedFn),
    Ascribe(SType, Box<SChecked>),
    TypeTag(SType),
}

/// The model of a [`CheckedMatchArm`].
#[verifier::ext_equal]
pub struct SArm {
    pub constructor: SConstructorId,
    pub binding: SParam,
    pub body: Box<SChecked>,
}

/// The model of a [`CheckedBlock`].
#[verifier::ext_equal]
pub struct SBlock {
    pub frame_layout: Seq<BindingId>,
    pub bindings: Seq<SBinding>,
    pub expressions: Seq<SChecked>,
}

/// The model of a [`CheckedBinding`].
#[verifier::ext_equal]
pub struct SBinding {
    pub id: BindingId,
    pub name: Seq<char>,
    pub ty: SType,
    pub initializer: SChecked,
}

/// The model of a [`CheckedParam`].
#[verifier::ext_equal]
pub struct SParam {
    pub id: BindingId,
    pub name: Seq<char>,
    pub ty: SType,
}

/// The model of a [`CheckedFn`].
#[verifier::ext_equal]
pub struct SCheckedFn {
    pub name: Option<Seq<char>>,
    pub type_params: Seq<Seq<char>>,
    pub equality_params: Seq<Seq<char>>,
    pub params: Seq<SParam>,
    pub result: SType,
    pub body: Box<SBlock>,
}

pub open spec fn option_text(text: Option<String>) -> Option<Seq<char>> {
    match text {
        Some(t) => Some(t@),
        None => None,
    }
}

impl View for CheckedParam {
    type V = SParam;

    open spec fn view(&self) -> SParam {
        SParam { id: self.id, name: self.name@, ty: self.ty@ }
    }
}

impl Clone for CheckedParam {
    fn clone(&self) -> (r: CheckedParam)
        ensures
            r@ == self@,
    {
        CheckedParam { id: self.id, name: self.name.clone(), ty: self.ty.clone() }
    }
}

pub open spec fn params_view(items: Seq<CheckedParam>) -> Seq<SParam> {
    Seq::new(items.len(), |i: int| items[i]@)
}

impl CheckedExpr {
    pub open spec fn model(self) -> SChecked
        decreases self,
    {
        SChecked { ty: self.ty@, kind: self.kind.model() }
    }
}

impl CheckedExprKind {
    pub open spec fn model(self) -> SKind
        decreases self,
    {
        match self {
            CheckedExprKind::Unit => SKind::Unit,
            CheckedExprKind::Str(s) => SKind::Str(s@),
            CheckedExprKind::Int(n) => SKind::Int(n),
            CheckedExprKind::Float(f) => SKind::Float(f@),
            CheckedExprKind::Bool(b) => SKind::Bool(b),
            CheckedExprKind::Keyword(s) => SKind::Keyword(s@),
            CheckedExprKind::BindingRef(id) => SKind::BindingRef(id),
            CheckedExprKind::Vector(items) => SKind::Vector(checked_view(items@)),
            CheckedExprKind::Fields(items) => SKind::Fields(checked_fields_view(items@)),
            CheckedExprKind::If { condition, then_branch, else_branch } => SKind::If(
                Box::new(condition.model()),
                Box::new(then_branch.model()),
                Box::new(else_branch.model()),
            ),
            CheckedExprKind::Construct { owner, constructor, payload } => SKind::Construct(
                owner@,
                constructor@,
                Box::new(payload.model()),
            ),
            CheckedExprKind::Match { value, arms } => SKind::Match(
                Box::new(value.model()),
                arms_view(arms@),
            ),
            CheckedExprKind::Call { callee, args } => SKind::Call(
                Box::new(callee.model()),
                checked_view(args@),
            ),
            CheckedExprKind::Function(f) => SKind::Function((*f).model()),
            CheckedExprKind::Ascribe { target, value } => SKind::Ascribe(
                target@,
                Box::new(value.model()),
            ),
            CheckedExprKind::TypeTag(t) => SKind::TypeTag(t@),
        }
    }
}

impl CheckedFn {
    pub open spec fn model(self) -> SCheckedFn
        decreases self,
    {
        SCheckedFn {
            name: option_text(self.name),
            type_params: strings(self.type_params@),
            equality_params: strings(self.equality_params@),
            params: params_view(self.params@),
            result: self.result@,
            body: Box::new((*self.body).model()),
        }
    }
}

impl CheckedBlock {
    pub open spec fn model(self) -> SBlock
        decreases self,
    {
        SBlock {
            frame_layout: self.frame_layout@,
            bindings: bindings_view(self.bindings@),
            expressions: checked_view(self.expressions@),
        }
    }
}

pub open spec fn checked_view(items: Seq<CheckedExpr>) -> Seq<SChecked>
    decreases items,
{
    Seq::new(
        items.len(),
        |i: int|
            if 0 <= i < items.len() {
                items[i].model()
            } else {
                arbitrary()
            },
    )
}

pub open spec fn checked_fields_view(items: Seq<(String, CheckedExpr)>) -> Seq<
    (Seq<char>, SChecked),
>
    decreases items,
{
    Seq::new(
        items.len(),
        |i: int|
            if 0 <= i < items.len() {
                (items[i].0@, items[i].1.model())
            } else {
                arbitrary()
            },
    )
}

pub open spec fn arms_view(items: Seq<CheckedMatchArm>) -> Seq<SArm>
    decreases items,
{
    Seq::new(
        items.len(),
        |i: int|
            if 0 <= i < items.len() {
                SArm {
                    constructor: items[i].constructor@,
                    binding: items[i].binding@,
                    body: Box::new(items[i].body.model()),
                }
            } else {
                arbitrary()
            },
    )
}

pub open spec fn bindings_view(items: Seq<CheckedBinding>) -> Seq<SBinding>
    decreases items,
{
    Seq::new(
        items.len(),
        |i: int|
            if 0 <= i < items.len() {
                SBinding {
                    id: items[i].id,
                    name: items[i].name@,
                    ty: items[i].ty@,
                    initializer: (*items[i].initializer).model(),
                }
            } else {
                arbitrary()
            },
    )
}

impl View for CheckedExpr {
    type V = SChecked;

    open spec fn view(&self) -> SChecked {
        self.model()
    }
}

impl View for CheckedFn {
    type V = SCheckedFn;

    open spec fn view(&self) -> SCheckedFn {
        self.model()
    }
}

impl View for CheckedBlock {
    type V = SBlock;

    open spec fn view(&self) -> SBlock {
        self.model()
    }
}

/// A function value: its signature, its checked body, and the frames that it closes over. Two
/// function values are the same exactly when their identities are.
#[derive(Debug)]
pub struct FnValue {
    pub identity: u64,
    pub name: Option<String>,
    pub type_params: Vec<String>,
    pub equality_params: Vec<String>,
    pub params: Vec<String>,
    pub param_types: Vec<MagType>,
    pub return_type: MagType,
    pub checked: Arc<CheckedFn>,
    pub closure: Vec<FrameId>,
}

/// The model of a [`FnValue`].
#[verifier::ext_equal]
pub struct SFn {
    pub identity: u64,
    pub name: Option<Seq<char>>,
    pub type_params: Seq<Seq<char>>,
    pub equality_params: Seq<Seq<char>>,
    pub params: Seq<Seq<char>>,
    pub param_types: Seq<SType>,
    pub return_type: SType,
    pub checked: SCheckedFn,
    pub closure: Seq<FrameId>,
}

impl View for FnValue {
    type V = SFn;

    open spec fn view(&self) -> SFn {
        SFn {
            identity: self.identity,
            name: option_text(self.name),
            type_params: strings(self.type_params@),
            equality_params: strings(self.equality_params@),
            params: strings(self.params@),
            param_types: types_view(self.param_types@),
            return_type: self.return_type@,
            checked: (*self.checked)@,
            closure: self.closure@,
        }
    }
}

/// A runtime value.
#[derive(Debug)]
pub enum Value {
    Unit,
    Str(String),
    Int(i64),
    Float(Float),
    Bool(bool),
    Keyword(String),
    Symbol(String),
    List(Arc<Vec<Value>>),
    /// A checked ordered product: every position retains its own type.
    Product(Arc<Vec<Value>>),
    /// The fields in the order of their names.
    Record(Arc<Vec<(String, Value)>>),
    MapOf(Arc<Vec<(Value, Value)>>),
    SetOf(Arc<Vec<Value>>),
    Fn(Arc<FnValue>),
    BuiltinFn(String),
    Type(MagType),
    TypeDecl(TypeDecl),
    TypeTag(ConcreteType),
    TypeDescriptor(ConcreteType),
    TypeSchema(Json),
    SemanticTypeId(String),
    PackedValue(Arc<Value>),
    JsonValue(Json),
    HostInputs(Json),
    Artifact(Json),
    Adt { owner: MagType, constructor: ConstructorDeclarationId, payload: Arc<Value> },
    Typed(Arc<Value>, MagType),
}

/// The model of a [`Value`].
#[verifier::ext_equal]
pub enum SValue {
    Unit,
    Str(Seq<char>),
    Int(i64),
    Float(SFloat),
    Bool(bool),
    Keyword(Seq<char>),
    Symbol(Seq<char>),
    List(Seq<SValue>),
    Product(Seq<SValue>),
    Record(Seq<(Seq<char>, SValue)>),
    MapOf(Seq<(SValue, SValue)>),
    SetOf(Seq<SValue>),
    Fn(SFn),
    BuiltinFn(Seq<char>),
    Type(SType),
    TypeDecl(SDecl),
    TypeTag(SConcrete),
    TypeDescriptor(SConcrete),
    TypeSchema(SJson),
    SemanticTypeId(Seq<char>),
    PackedValue(Box<SValue>),
    JsonValue(SJson),
    HostInputs(SJson),
    Artifact(SJson),
    Adt(SType, SConstructorId, Box<SValue>),
    Typed(Box<SValue>, SType),
}

impl Value {
    pub open spec fn model(self) -> SValue
        decreases self,
    {
        match self {
            Value::Unit => SValue::Unit,
            Value::Str(s) => SValue::Str(s@),
            Value::Int(n) => SValue::Int(n),
            Value::Float(f) => SValue::Float(f@),
            Value::Bool(b) => SValue::Bool(b),
            Value::Keyword(s) => SValue::Keyword(s@),
            Value::Symbol(s) => SValue::Symbol(s@),
            Value::List(v) => SValue::List(values_view((*v)@)),
            Value::Product(v) => SValue::Product(values_view((*v)@)),
            Value::Record(v) => SValue::Record(value_fields_view((*v)@)),
            Value::MapOf(v) => SValue::MapOf(value_entries_view((*v)@)),
            Value::SetOf(v) => SValue::SetOf(values_view((*v)@)),
            Value::Fn(f) => SValue::Fn((*f)@),
            Value::BuiltinFn(s) => SValue::BuiltinFn(s@),
            Value::Type(t) => SValue::Type(t@),
            Value::TypeDecl(d) => SValue::TypeDecl(d@),
            Value::TypeTag(t) => SValue::TypeTag(t@),
            Value::TypeDescriptor(t) => SValue::TypeDescriptor(t@),
            Value::TypeSchema(j) => SValue::TypeSchema(j@),
            Value::SemanticTypeId(s) => SValue::SemanticTypeId(s@),
            Value::PackedValue(v) => SValue::PackedValue(Box::new((*v).model())),
            Value::JsonValue(j) => SValue::JsonValue(j@),
            Value::HostInputs(j) => SValue::HostInputs(j@),
            Value::Artifact(j) => SValue::Artifact(j@),
            Value::Adt { owner, constructor, payload } => SValue::Adt(
                owner@,
                constructor@,
                Box::new((*payload).model()),
            ),
            Value::Typed(v, t) => SValue::Typed(Box::new((*v).model()), t@),
        }
    }
}

pub open spec fn values_view(items: Seq<Value>) -> Seq<SValue>
    decreases items,
{
    Seq::new(
        items.len(),
        |i: int|
            if 0 <= i < items.len() {
                items[i].model()
            } else {
                arbitrary()
            },
    )
}

pub open spec fn value_fields_view(items: Seq<(String, Value)>) -> Seq<(Seq<char>, SValue)>
    decreases items,
{
    Seq::new(
        items.len(),
        |i: int|
            if 0 <= i < items.len() {
                (items[i].0@, items[i].1.model())
            } else {
                arbitrary()
            },
    )
}

pub open spec fn value_entries_view(items: Seq<(Value, Value)>) -> Seq<(SValue, SValue)>
    decreases items,
{
    Seq::new(
        items.len(),
        |i: int|
            if 0 <= i < items.len() {
                (items[i].0.model(), items[i].1.model())
            } else {
                arbitrary()
            },
    )
}

impl View for Value {
    type V = SValue;

    open spec fn view(&self) -> SValue {
        self.model()
    }
}

impl Clone for Value {
    fn clone(&self) -> (r: Value)
        ensures
            r@ == self@,
    {
        match self {
            Value::Unit => Value::Unit,
            Value::Str(s) => Value::Str(s.clone()),
            Value::Int(n) => Value::Int(*n),
            Value::Float(f) => Value::Float(f.clone()),
            Value::Bool(b) => Value::Bool(*b),
            Value::Keyword(s) => Value::Keyword(s.clone()),
            Value::Symbol(s) => Value::Symbol(s.clone()),
            Value::List(v) => Value::List(share(v)),
            Value::Product(v) => Value::Product(share(v)),
            Value::Record(v) => Value::Record(share(v)),
            Value::MapOf(v) => Value::MapOf(share(v)),
            Value::SetOf(v) => Value::SetOf(share(v)),
            Value::Fn(f) => Value::Fn(share(f)),
            Value::BuiltinFn(s) => Value::BuiltinFn(s.clone()),
            Value::Type(t) => Value::Type(t.clone()),
            Value::TypeDecl(d) => Value::TypeDecl(d.clone()),
            Value::TypeTag(t) => Value::TypeTag(t.clone()),
            Value::TypeDescriptor(t) => Value::TypeDescriptor(t.clone()),
            Value::TypeSchema(j) => Value::TypeSchema(j.clone()),
            Value::SemanticTypeId(s) => Value::SemanticTypeId(s.clone()),
            Value::PackedValue(v) => Value::PackedValue(share(v)),
            Value::JsonValue(j) => Value::JsonValue(j.clone()),
            Value::HostInputs(j) => Value::HostInputs(j.clone()),
            Value::Artifact(j) => Value::Artifact(j.clone()),
            Value::Adt { owner, constructor, payload } => Value::Adt {
                owner: owner.clone(),
                constructor: constructor.clone(),
                payload: share(payload),
            },
            Value::Typed(v, t) => Value::Typed(share(v), t.clone()),
        }
    }
}

pub fn clone_values(items: &Vec<Value>) -> (r: Vec<Value>)
    ensures
        values_view(r@) == values_view(items@),
        r@.len() == items@.len(),
{
    let ghost all = values_view(items@);
    let mut r: Vec<Value> = Vec::new();
    let mut i: usize = 0;
    assert(all.len() == items@.len());
    while i < items.len()
        invariant
            i <= items.len(),
            r.len() == i,
            all == values_view(items@),
            all.len() == items@.len(),
            forall|j: int| 0 <= j < i ==> (#[trigger] r@[j])@ == all[j],
        decreases items.len() - i,
    {
        assert(all[i as int] == items@[i as int]@);
        r.push(items[i].clone());
        i = i + 1;
    }
    assert(values_view(r@) =~= all);
    r
}

/// The kind of a value, as messages name it.
pub open spec fn kind_name(value: SValue) -> Seq<char>
    decreases value,
{
    match value {
        SValue::Unit => "unit"@,
        SValue::Str(_) => "string"@,
        SValue::Int(_) => "int"@,
        SValue::Float(_) => "float"@,
        SValue::Bool(_) => "bool"@,
        SValue::Keyword(_) => "keyword"@,
        SValue::Symbol(_) => "symbol"@,
        SValue::List(_) => "list"@,
        SValue::Product(_) => "product"@,
        SValue::Record(_) => "record"@,
        SValue::MapOf(_) => "map"@,
        SValue::SetOf(_) => "set"@,
        SValue::Fn(_) => "fn"@,
        SValue::BuiltinFn(_) => "builtin-fn"@,
        SValue::Type(_) => "type"@,
        SValue::TypeDecl(_) => "type"@,
        SValue::TypeTag(_) => "type-tag"@,
        SValue::TypeDescriptor(_) => "type-descriptor"@,
        SValue::TypeSchema(_) => "type-schema"@,
        SValue::SemanticTypeId(_) => "semantic-type-id"@,
        SValue::PackedValue(_) => "packed-value"@,
        SValue::JsonValue(_) => "json-value"@,
        SValue::HostInputs(_) => "host-inputs"@,
        SValue::Artifact(_) => "artifact"@,
        SValue::Adt(_, _, _) => "adt"@,
        SValue::Typed(v, _) => kind_name(*v),
    }
}

/// The string that a value is, under any number of type annotations.
pub open spec fn string_of(value: SValue) -> Option<Seq<char>>
    decreases value,
{
    match value {
        SValue::Str(s) => Some(s),
        SValue::Typed(v, _) => string_of(*v),
        _ => None,
    }
}

impl Value {
    pub fn as_str(&self) -> (r: Option<&str>)
        ensures
            match r {
                Some(s) => string_of(self@) == Some(s@),
                None => string_of(self@) is None,
            },
        decreases self,
    {
        match self {
            Value::Str(s) => Some(s.as_str()),
            Value::Typed(v, _) => v.as_str(),
            _ => None,
        }
    }

    pub fn kind_text(&self) -> (r: &'static str)
        ensures
            r@ == kind_name(self@),
        decreases self,
    {
        match self {
            Value::Unit => "unit",
            Value::Str(_) => "string",
            Value::Int(_) => "int",
            Value::Float(_) => "float",
            Value::Bool(_) => "bool",
            Value::Keyword(_) => "keyword",
            Value::Symbol(_) => "symbol",
            Value::List(_) => "list",
            Value::Product(_) => "product",
            Value::Record(_) => "record",
            Value::MapOf(_) => "map",
            Value::SetOf(_) => "set",
            Value::Fn(_) => "fn",
            Value::BuiltinFn(_) => "builtin-fn",
            Value::Type(_) => "type",
            Value::TypeDecl(_) => "type",
            Value::TypeTag(_) => "type-tag",
            Value::TypeDescriptor(_) => "type-descriptor",
            Value::TypeSchema(_) => "type-schema",
            Value::SemanticTypeId(_) => "semantic-type-id",
            Value::PackedValue(_) => "packed-value",
            Value::JsonValue(_) => "json-value",
            Value::HostInputs(_) => "host-inputs",
            Value::Artifact(_) => "artifact",
            Value::Adt { .. } => "adt",
            Value::Typed(v, _) => v.kind_text(),
        }
    }
}

} // verus!
