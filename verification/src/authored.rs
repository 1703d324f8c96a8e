//! Authored programs: what a frontend makes of source text, before names and types are resolved.

use vstd::prelude::*;

use crate::ast::{Float, SFloat};
use crate::error::{MagError, SError};
use crate::text::strings;

verus! {

#[derive(Debug)]
pub struct Module {
    pub forms: Vec<Form>,
}

#[derive(Debug)]
pub enum Form {
    Require(Require),
    Type(TypeDeclaration),
    Block(BlockItem),
    Invalid(AuthoringError),
}

#[derive(Debug)]
pub struct Require {
    pub module: String,
    pub exposure: ImportExposure,
}

#[derive(Debug)]
pub enum ImportExposure {
    Open,
    Qualified,
    Selective(Vec<ImportSelector>),
    NamespaceAlias(String),
}

#[derive(Debug)]
pub struct ImportSelector {
    pub export: String,
    pub local: Option<String>,
}

#[derive(Debug)]
pub struct TypeDeclaration {
    pub name: String,
    pub params: Vec<String>,
    pub body: TypeDeclarationBody,
}

#[derive(Debug)]
pub enum TypeDeclarationBody {
    Fields(Vec<(String, Type)>),
    TransparentAlias(Type),
    Newtype(Type),
    Adt(Vec<ConstructorDeclaration>),
}

#[derive(Debug)]
pub struct ConstructorDeclaration {
    pub name: String,
    pub payload: Type,
}

#[derive(Debug)]
pub enum BlockItem {
    Let { name: String, value: Expr },
    Expr(Expr),
    Invalid(AuthoringError),
}

#[derive(Debug)]
pub enum Expr {
    Unit,
    Str(String),
    Int(i64),
    Float(Float),
    Bool(bool),
    Keyword(String),
    Name(String),
    Vector(Vec<Expr>),
    Fields(Vec<(String, Expr)>),
    If { condition: Box<Expr>, then_branch: Box<Expr>, else_branch: Box<Expr> },
    Construct { owner: Type, constructor: String, payload: Box<Expr> },
    Match { value: Box<Expr>, arms: Vec<MatchArm> },
    Call { callee: Box<Expr>, args: Vec<Expr> },
    Function(Function),
    Ascribe { target: Type, value: Box<Expr> },
    TypeTag(Type),
    Invalid(AuthoringError),
}

#[derive(Debug)]
pub struct MatchArm {
    pub constructor: String,
    pub binding: String,
    pub body: Box<Expr>,
}

#[derive(Debug)]
pub struct Function {
    pub type_params: Vec<String>,
    pub params: Vec<Parameter>,
    pub result: Type,
    pub body: Vec<BlockItem>,
}

#[derive(Debug)]
pub struct Parameter {
    pub name: String,
    pub ty: Type,
}

#[derive(Debug)]
pub enum Type {
    Name(String),
    Record(Vec<(String, Type)>),
    Product(Vec<Type>),
    Tag(Box<Type>),
    Function { params: Vec<Type>, result: Box<Type> },
    Apply { constructor: String, arguments: Vec<Type> },
    Invalid(String),
}

#[derive(Debug)]
pub enum AuthoringError {
    Type(String),
    Eval(String),
    Arity { expected: usize, got: usize },
}

/// The model of a [`Form`].
#[verifier::ext_equal]
pub enum SForm {
    Require(Seq<char>, SExposure),
    Type(STypeDeclaration),
    Block(SItem),
    Invalid(SAuthoringError),
}

/// The model of an [`ImportExposure`].
#[verifier::ext_equal]
pub enum SExposure {
    Open,
    Qualified,
    Selective(Seq<(Seq<char>, Option<Seq<char>>)>),
    NamespaceAlias(Seq<char>),
}

/// The model of a [`TypeDeclaration`].
#[verifier::ext_equal]
pub struct STypeDeclaration {
    pub name: Seq<char>,
    pub params: Seq<Seq<char>>,
    pub body: SDeclarationBody,
}

/// The model of a [`TypeDeclarationBody`].
#[verifier::ext_equal]
pub enum SDeclarationBody {
    Fields(Seq<(Seq<char>, SAuthoredType)>),
    TransparentAlias(SAuthoredType),
    Newtype(SAuthoredType),
    Adt(Seq<(Seq<char>, SAuthoredType)>),
}

/// The model of a [`BlockItem`].
#[verifier::ext_equal]
pub enum SItem {
    Let(Seq<char>, SExpr),
    Expr(SExpr),
    Invalid(SAuthoringError),
}

/// The model of an [`Expr`].
#[verifier::ext_equal]
pub enum SExpr {
    Unit,
    Str(Seq<char>),
    Int(i64),
    Float(SFloat),
    Bool(bool),
    Keyword(Seq<char>),
    Name(Seq<char>),
    Vector(Seq<SExpr>),
    Fields(Seq<(Seq<char>, SExpr)>),
    If(Box<SExpr>, Box<SExpr>, Box<SExpr>),
    Construct(SAuthoredType, Seq<char>, Box<SExpr>),
    Match(Box<SExpr>, Seq<SMatchArm>),
    Call(Box<SExpr>, Seq<SExpr>),
    Function(SFunction),
    Ascribe(SAuthoredType, Box<SExpr>),
    TypeTag(SAuthoredType),
    Invalid(SAuthoringError),
}

/// The model of a [`MatchArm`].
#[verifier::ext_equal]
pub struct SMatchArm {
    pub constructor: Seq<char>,
    pub binding: Seq<char>,
    pub body: Box<SExpr>,
}

/// The model of a [`Function`].
#[verifier::ext_equal]
pub struct SFunction {
    pub type_params: Seq<Seq<char>>,
    pub params: Seq<(Seq<char>, SAuthoredType)>,
    pub result: SAuthoredType,
    pub body: Seq<SItem>,
}

/// The model of a [`Type`].
#[verifier::ext_equal]
pub enum SAuthoredType {
    Name(Seq<char>),
    Record(Seq<(Seq<char>, SAuthoredType)>),
    Product(Seq<SAuthoredType>),
    Tag(Box<SAuthoredType>),
    Function(Seq<SAuthoredType>, Box<SAuthoredType>),
    Apply(Seq<char>, Seq<SAuthoredType>),
    Invalid(Seq<char>),
}

/// The model of an [`AuthoringError`].
#[verifier::ext_equal]
pub enum SAuthoringError {
    Type(Seq<char>),
    Eval(Seq<char>),
    Arity(nat, nat),
}

impl View for AuthoringError {
    type V = SAuthoringError;

    open spec fn view(&self) -> SAuthoringError {
        match self {
            AuthoringError::Type(m) => SAuthoringError::Type(m@),
            AuthoringError::Eval(m) => SAuthoringError::Eval(m@),
            AuthoringError::Arity { expected, got } => SAuthoringError::Arity(
                *expected as nat,
                *got as nat,
            ),
        }
    }
}

/// The compiler error that an authoring error is.
pub open spec fn authoring_failure(e: SAuthoringError) -> SError {
    match e {
        SAuthoringError::Type(m) => SError::Type(m),
        SAuthoringError::Eval(m) => SError::Eval(m),
        SAuthoringError::Arity(expected, got) => SError::Arity(expected, got),
    }
}

impl Clone for AuthoringError {
    fn clone(&self) -> (r: AuthoringError)
        ensures
            r@ == self@,
    {
        match self {
            AuthoringError::Type(m) => AuthoringError::Type(m.clone()),
            AuthoringError::Eval(m) => AuthoringError::Eval(m.clone()),
            AuthoringError::Arity { expected, got } => AuthoringError::Arity {
                expected: *expected,
                got: *got,
            },
        }
    }
}

impl AuthoringError {
    pub fn into_mag_error(self) -> (r: MagError)
        ensures
            r@ == authoring_failure(self@),
    {
        match self {
            AuthoringError::Type(m) => MagError::Type(m),
            AuthoringError::Eval(m) => MagError::Eval(m),
            AuthoringError::Arity { expected, got } => MagError::Arity { expected, got },
        }
    }
}

impl Type {
    pub open spec fn model(self) -> SAuthoredType
        decreases self,
    {
        match self {
            Type::Name(n) => SAuthoredType::Name(n@),
            Type::Record(f) => SAuthoredType::Record(authored_fields(f@)),
            Type::Product(a) => SAuthoredType::Product(authored_types(a@)),
            Type::Tag(t) => SAuthoredType::Tag(Box::new(t.model())),
            Type::Function { params, result } => SAuthoredType::Function(
                authored_types(params@),
                Box::new(result.model()),
            ),
            Type::Apply { constructor, arguments } => SAuthoredType::Apply(
                constructor@,
                authored_types(arguments@),
            ),
            Type::Invalid(m) => SAuthoredType::Invalid(m@),
        }
    }
}

pub open spec fn authored_types(items: Seq<Type>) -> Seq<SAuthoredType>
    decreases items,
{
    Seq::new(
        items.len(),
        |i: int|
            if 0 <= i < items.len() {
                items[i].model()
            } else {
                arbitrary()
            },
    )
}

pub open spec fn authored_fields(items: Seq<(String, Type)>) -> Seq<(Seq<char>, SAuthoredType)>
    decreases items,
{
    Seq::new(
        items.len(),
        |i: int|
            if 0 <= i < items.len() {
                (items[i].0@, items[i].1.model())
            } else {
                arbitrary()
            },
    )
}

impl View for Type {
    type V = SAuthoredType;

    open spec fn view(&self) -> SAuthoredType {
        self.model()
    }
}

pub open spec fn parameters_view(items: Seq<Parameter>) -> Seq<(Seq<char>, SAuthoredType)> {
    Seq::new(items.len(), |i: int| (items[i].name@, items[i].ty@))
}

pub open spec fn authored_constructors(items: Seq<ConstructorDeclaration>) -> Seq<
    (Seq<char>, SAuthoredType),
> {
    Seq::new(items.len(), |i: int| (items[i].name@, items[i].payload@))
}

impl View for TypeDeclarationBody {
    type V = SDeclarationBody;

    open spec fn view(&self) -> SDeclarationBody {
        match self {
            TypeDeclarationBody::Fields(f) => SDeclarationBody::Fields(authored_fields(f@)),
            TypeDeclarationBody::TransparentAlias(t) => SDeclarationBody::TransparentAlias(t@),
            TypeDeclarationBody::Newtype(t) => SDeclarationBody::Newtype(t@),
            TypeDeclarationBody::Adt(c) => SDeclarationBody::Adt(authored_constructors(c@)),
        }
    }
}

impl View for TypeDeclaration {
    type V = STypeDeclaration;

    open spec fn view(&self) -> STypeDeclaration {
        STypeDeclaration { name: self.name@, params: strings(self.params@), body: self.body@ }
    }
}

impl Expr {
    pub open spec fn model(self) -> SExpr
        decreases self,
    {
        match self {
            Expr::Unit => SExpr::Unit,
            Expr::Str(s) => SExpr::Str(s@),
            Expr::Int(n) => SExpr::Int(n),
            Expr::Float(f) => SExpr::Float(f@),
            Expr::Bool(b) => SExpr::Bool(b),
            Expr::Keyword(s) => SExpr::Keyword(s@),
            Expr::Name(s) => SExpr::Name(s@),
            Expr::Vector(items) => SExpr::Vector(exprs_view(items@)),
            Expr::Fields(items) => SExpr::Fields(expr_fields_view(items@)),
            Expr::If { condition, then_branch, else_branch } => SExpr::If(
                Box::new(condition.model()),
                Box::new(then_branch.model()),
                Box::new(else_branch.model()),
            ),
            Expr::Construct { owner, constructor, payload } => SExpr::Construct(
                owner@,
                constructor@,
                Box::new(payload.model()),
            ),
            Expr::Match { value, arms } => SExpr::Match(
                Box::new(value.model()),
                match_arms_view(arms@),
            ),
            Expr::Call { callee, args } => SExpr::Call(
                Box::new(callee.model()),
                exprs_view(args@),
            ),
            Expr::Function(f) => SExpr::Function(f.model()),
            Expr::Ascribe { target, value } => SExpr::Ascribe(target@, Box::new(value.model())),
            Expr::TypeTag(t) => SExpr::TypeTag(t@),
            Expr::Invalid(e) => SExpr::Invalid(e@),
        }
    }
}

impl Function {
    pub open spec fn model(self) -> SFunction
        decreases self,
    {
        SFunction {
            type_params: strings(self.type_params@),
            params: parameters_view(self.params@),
            result: self.result@,
            body: items_view(self.body@),
        }
    }
}

impl BlockItem {
    pub open spec fn model(self) -> SItem
        decreases self,
    {
        match self {
            BlockItem::Let { name, value } => SItem::Let(name@, value.model()),
            BlockItem::Expr(e) => SItem::Expr(e.model()),
            BlockItem::Invalid(e) => SItem::Invalid(e@),
        }
    }
}

pub open spec fn exprs_view(items: Seq<Expr>) -> Seq<SExpr>
    decreases items,
{
    Seq::new(
        items.len(),
        |i: int|
            if 0 <= i < items.len() {
                items[i].model()
            } else {
                arbitrary()
            },
    )
}

pub open spec fn expr_fields_view(items: Seq<(String, Expr)>) -> Seq<(Seq<char>, SExpr)>
    decreases items,
{
    Seq::new(
        items.len(),
        |i: int|
            if 0 <= i < items.len() {
                (items[i].0@, items[i].1.model())
            } else {
                arbitrary()
            },
    )
}

pub open spec fn match_arms_view(items: Seq<MatchArm>) -> Seq<SMatchArm>
    decreases items,
{
    Seq::new(
        items.len(),
        |i: int|
            if 0 <= i < items.len() {
                SMatchArm {
                    constructor: items[i].constructor@,
                    binding: items[i].binding@,
                    body: Box::new(items[i].body.model()),
                }
            } else {
                arbitrary()
            },
    )
}

pub open spec fn items_view(items: Seq<BlockItem>) -> Seq<SItem>
    decreases items,
{
    Seq::new(
        items.len(),
        |i: int|
            if 0 <= i < items.len() {
                items[i].model()
            } else {
                arbitrary()
            },
    )
}

impl View for Expr {
    type V = SExpr;

    open spec fn view(&self) -> SExpr {
        self.model()
    }
}

impl View for Function {
    type V = SFunction;

    open spec fn view(&self) -> SFunction {
        self.model()
    }
}

impl View for BlockItem {
    type V = SItem;

    open spec fn view(&self) -> SItem {
        self.model()
    }
}

pub open spec fn selectors_view(items: Seq<ImportSelector>) -> Seq<
    (Seq<char>, Option<Seq<char>>),
> {
    Seq::new(items.len(), |i: int| (items[i].export@, crate::ast::option_text(items[i].local)))
}

impl View for ImportExposure {
    type V = SExposure;

    open spec fn view(&self) -> SExposure {
        match self {
            ImportExposure::Open => SExposure::Open,
            ImportExposure::Qualified => SExposure::Qualified,
            ImportExposure::Selective(s) => SExposure::Selective(selectors_view(s@)),
            ImportExposure::NamespaceAlias(n) => SExposure::NamespaceAlias(n@),
        }
    }
}

impl View for Form {
    type V = SForm;

    open spec fn view(&self) -> SForm {
        match self {
            Form::Require(r) => SForm::Require(r.module@, r.exposure@),
            Form::Type(t) => SForm::Type(t@),
            Form::Block(b) => SForm::Block(b@),
            Form::Invalid(e) => SForm::Invalid(e@),
        }
    }
}

pub open spec fn forms_view(items: Seq<Form>) -> Seq<SForm> {
    Seq::new(items.len(), |i: int| items[i]@)
}

} // verus!
