//! The frontend of prefix lists: what the lists, vectors and maps of a source stand for.

use vstd::prelude::*;

use crate::authored;
use crate::authored::{
    authored_constructors, authored_fields, authored_types, exprs_view, expr_fields_view,
    forms_view, items_view, match_arms_view, parameters_view, AuthoringError, BlockItem,
    ConstructorDeclaration, Form, Function, ImportExposure, MatchArm, Module, Parameter, Require,
    SAuthoredType, SAuthoringError, SDeclarationBody, SExposure, SExpr, SForm, SFunction, SItem,
    SMatchArm, STypeDeclaration, Type, TypeDeclaration, TypeDeclarationBody,
};
use crate::error::{MagError, SError};
use crate::reader::{parse, read_source};
use crate::surface::{head, pairs_view, surfaces_view, symbol, Expr, SSurface};
use crate::text::{same, strings};

verus! {

broadcast use vstd::seq_lib::group_seq_properties;

/// The name of a field.
pub open spec fn field_key(e: SSurface) -> Option<Seq<char>> {
    match e {
        SSurface::Keyword(k) => Some(k),
        SSurface::Symbol(k) => Some(k),
        SSurface::Str(k) => Some(k),
        _ => None,
    }
}

fn record_key(e: &Expr) -> (r: Option<String>)
    ensures
        match r {
            Some(k) => field_key(e@) == Some(k@),
            None => field_key(e@) is None,
        },
{
    match e {
        Expr::Keyword(k) => Some(k.clone()),
        Expr::Symbol(k) => Some(k.clone()),
        Expr::Str(k) => Some(k.clone()),
        _ => None,
    }
}

/// Whether every key of a map names a field.
pub open spec fn keys_valid(pairs: Seq<(SSurface, SSurface)>) -> bool {
    forall|i: int| 0 <= i < pairs.len() ==> field_key((#[trigger] pairs[i]).0) is Some
}

/// The type that an expression writes.
pub open spec fn written_type(e: SSurface) -> SAuthoredType
    decreases e, 1nat,
{
    match e {
        SSurface::Symbol(name) => SAuthoredType::Name(name),
        SSurface::Braces(pairs) => if keys_valid(pairs) {
            SAuthoredType::Record(written_fields(pairs))
        } else {
            SAuthoredType::Invalid("record field names must be symbols or keywords"@)
        },
        SSurface::List(items) => if items.len() == 0 {
            SAuthoredType::Invalid("invalid type expression"@)
        } else {
            match symbol(items[0]) {
                None => SAuthoredType::Invalid("type application head must be a symbol"@),
                Some(h) => if h == "|"@ {
                    SAuthoredType::Invalid(
                        "authored structural unions are unsupported; declare an ADT"@,
                    )
                } else if h == "+"@ {
                    SAuthoredType::Product(written_types(items, 1, items.len()))
                } else if h == "TypeTag"@ && items.len() == 2 {
                    SAuthoredType::Tag(Box::new(written_type(items[1])))
                } else if h == "Fn"@ && items.len() >= 2 {
                    SAuthoredType::Function(
                        written_types(items, 1, (items.len() - 1) as nat),
                        Box::new(written_type(items[items.len() - 1])),
                    )
                } else {
                    SAuthoredType::Apply(h, written_types(items, 1, items.len()))
                },
            }
        },
        _ => SAuthoredType::Invalid("invalid type expression"@),
    }
}

/// The types that the items from one place up to another write.
pub open spec fn written_types(items: Seq<SSurface>, from: nat, to: nat) -> Seq<SAuthoredType>
    decreases items, 0nat,
{
    Seq::new(
        (if from <= to {
            to - from
        } else {
            0
        }) as nat,
        |i: int|
            if 0 <= i + from < items.len() {
                written_type(items[i + from])
            } else {
                arbitrary()
            },
    )
}

pub open spec fn written_fields(pairs: Seq<(SSurface, SSurface)>) -> Seq<
    (Seq<char>, SAuthoredType),
>
    decreases pairs, 0nat,
{
    Seq::new(
        pairs.len(),
        |i: int|
            if 0 <= i < pairs.len() {
                (field_key(pairs[i].0)->Some_0, written_type(pairs[i].1))
            } else {
                arbitrary()
            },
    )
}

fn lower_type(e: &Expr) -> (r: Type)
    ensures
        r@ == written_type(e@),
    decreases e, 1nat,
{
    match e {
        Expr::Symbol(name) => Type::Name(name.clone()),
        Expr::Braces(pairs) => {
            assert(e@ == SSurface::Braces(pairs_view(pairs@)));
            match lower_type_fields(pairs) {
                Some(fields) => {
                    let r = Type::Record(fields);
                    assert(r@ == SAuthoredType::Record(authored_fields(fields@)));
                    r
                },
                None => Type::Invalid("record field names must be symbols or keywords".to_owned()),
            }
        },
        Expr::List(items) => {
            let ghost all = surfaces_view(items@);
            assert(e@ == SSurface::List(all));
            assert(all.len() == items@.len());
            if items.len() == 0 {
                return Type::Invalid("invalid type expression".to_owned());
            }
            assert(all[0] == items@[0]@);
            let h = match items[0].as_symbol() {
                Some(h) => h,
                None => {
                    return Type::Invalid("type application head must be a symbol".to_owned());
                },
            };
            if same(h, "|") {
                return Type::Invalid(
                    "authored structural unions are unsupported; declare an ADT".to_owned(),
                );
            }
            if same(h, "+") {
                let types = lower_types(items, 1, items.len());
                let r = Type::Product(types);
                assert(r@ == SAuthoredType::Product(authored_types(types@)));
                return r;
            }
            if same(h, "TypeTag") && items.len() == 2 {
                assert(all[1] == items@[1]@);
                let inner = lower_type(&items[1]);
                let r = Type::Tag(Box::new(inner));
                assert(r@ == SAuthoredType::Tag(Box::new(inner@)));
                return r;
            }
            if same(h, "Fn") && items.len() >= 2 {
                let last = items.len() - 1;
                assert(all[last as int] == items@[last as int]@);
                let params = lower_types(items, 1, last);
                let result = lower_type(&items[last]);
                let r = Type::Function { params, result: Box::new(result) };
                assert(r@ == SAuthoredType::Function(
                    authored_types(params@),
                    Box::new(result@),
                ));
                return r;
            }
            let arguments = lower_types(items, 1, items.len());
            let r = Type::Apply { constructor: h.to_owned(), arguments };
            assert(r@ == SAuthoredType::Apply(h@, authored_types(arguments@)));
            r
        },
        _ => Type::Invalid("invalid type expression".to_owned()),
    }
}

fn lower_types(items: &Vec<Expr>, from: usize, to: usize) -> (r: Vec<Type>)
    requires
        from <= to <= items@.len(),
    ensures
        authored_types(r@) == written_types(surfaces_view(items@), from as nat, to as nat),
    decreases items, 0nat,
{
    let ghost all = surfaces_view(items@);
    let mut r: Vec<Type> = Vec::new();
    let mut i: usize = from;
    assert(all.len() == items@.len());
    while i < to
        invariant
            from <= i <= to <= items@.len(),
            all == surfaces_view(items@),
            all.len() == items@.len(),
            r.len() == i - from,
            forall|j: int| 0 <= j < i - from ==> (#[trigger] r@[j])@ == written_type(all[j + from]),
        decreases to - i,
    {
        assert(all[i as int] == items@[i as int]@);
        r.push(lower_type(&items[i]));
        i = i + 1;
    }
    assert(authored_types(r@) =~= written_types(all, from as nat, to as nat));
    r
}

fn lower_type_fields(pairs: &Vec<(Expr, Expr)>) -> (r: Option<Vec<(String, Type)>>)
    ensures
        match r {
            Some(f) => keys_valid(pairs_view(pairs@)) && authored_fields(f@) == written_fields(
                pairs_view(pairs@),
            ),
            None => !keys_valid(pairs_view(pairs@)),
        },
    decreases pairs, 0nat,
{
    let ghost all = pairs_view(pairs@);
    let mut r: Vec<(String, Type)> = Vec::new();
    let mut i: usize = 0;
    assert(all.len() == pairs@.len());
    while i < pairs.len()
        invariant
            i <= pairs@.len(),
            all == pairs_view(pairs@),
            all.len() == pairs@.len(),
            r.len() == i,
            forall|j: int|
                0 <= j < i ==> field_key((#[trigger] all[j]).0) == Some(r@[j].0@) && r@[j].1@
                    == written_type(all[j].1),
        decreases pairs.len() - i,
    {
        assert(all[i as int] == (pairs@[i as int].0@, pairs@[i as int].1@));
        let ghost so_far = r@;
        match record_key(&pairs[i].0) {
            Some(key) => {
                let ty = lower_type(&pairs[i].1);
                r.push((key, ty));
                assert forall|j: int| 0 <= j < i + 1 implies field_key((#[trigger] all[j]).0)
                    == Some(r@[j].0@) && r@[j].1@ == written_type(all[j].1) by {
                    if j < i {
                        assert(r@[j] == so_far[j]);
                    }
                }
            },
            None => {
                return None;
            },
        }
        i = i + 1;
    }
    assert(authored_fields(r@) =~= written_fields(all)) by {
        assert(authored_fields(r@).len() == r@.len());
        assert forall|j: int| 0 <= j < r@.len() implies authored_fields(r@)[j]
            == written_fields(all)[j] by {
            assert(field_key(all[j].0) == Some(r@[j].0@));
        }
    }
    Some(r)
}

pub open spec fn invalid(message: Seq<char>) -> SExpr {
    SExpr::Invalid(SAuthoringError::Type(message))
}

/// What is wrong with the arm of a match.
pub open spec fn arm_problem(e: SSurface) -> Option<Seq<char>> {
    match e {
        SSurface::Vector(parts) => if parts.len() != 3 {
            Some("match arm must be [Constructor binding expression]"@)
        } else if symbol(parts[0]) is None {
            Some("match constructor must be a symbol"@)
        } else if symbol(parts[1]) is None {
            Some("match binding must be a symbol"@)
        } else {
            None
        },
        _ => Some("match arm must be [Constructor binding expression]"@),
    }
}

/// The first problem of the arms from `i` on.
pub open spec fn arms_problem(items: Seq<SSurface>, i: nat) -> Option<Seq<char>>
    decreases items.len() - i,
{
    if i >= items.len() {
        None
    } else {
        match arm_problem(items[i as int]) {
            Some(p) => Some(p),
            None => arms_problem(items, i + 1),
        }
    }
}

/// What is wrong with a parameter.
pub open spec fn parameter_problem(e: SSurface) -> Option<Seq<char>> {
    match e {
        SSurface::Vector(pair) => if pair.len() != 2 {
            Some("parameter must be [name Type]"@)
        } else if symbol(pair[0]) is None {
            Some("parameter name must be a symbol"@)
        } else {
            None
        },
        _ => Some("parameter must be [name Type]"@),
    }
}

pub open spec fn parameters_problem(items: Seq<SSurface>, i: nat) -> Option<Seq<char>>
    decreases items.len() - i,
{
    if i >= items.len() {
        None
    } else {
        match parameter_problem(items[i as int]) {
            Some(p) => Some(p),
            None => parameters_problem(items, i + 1),
        }
    }
}

pub open spec fn all_symbols(items: Seq<SSurface>) -> bool {
    forall|i: int| 0 <= i < items.len() ==> symbol(#[trigger] items[i]) is Some
}

pub open spec fn symbols(items: Seq<SSurface>) -> Seq<Seq<char>> {
    Seq::new(items.len(), |i: int| symbol(items[i])->Some_0)
}

pub open spec fn written_parameters(items: Seq<SSurface>) -> Seq<(Seq<char>, SAuthoredType)> {
    Seq::new(
        items.len(),
        |i: int|
            (
                symbol(items[i]->Vector_0[0])->Some_0,
                written_type(items[i]->Vector_0[1]),
            ),
    )
}

/// The parts of a function: its binder of type variables, its parameters, and where its arrow
/// stands.
pub open spec fn function_parts(items: Seq<SSurface>) -> (SSurface, SSurface, nat) {
    if items[2] is Vector {
        (items[1], items[2], 3)
    } else {
        (SSurface::Vector(Seq::empty()), items[1], 2)
    }
}

/// What is wrong with a function.
pub open spec fn function_problem(items: Seq<SSurface>) -> Option<Seq<char>> {
    if items.len() < 5 {
        Some("typed fn signature required"@)
    } else {
        let (binder, params, arrow) = function_parts(items);
        if items[arrow as int] != SSurface::Symbol("->"@) {
            Some("fn signature requires ->"@)
        } else {
            match binder {
                SSurface::Vector(names) => if !all_symbols(names) {
                    Some("generic binder must be a symbol"@)
                } else {
                    match params {
                        SSurface::Vector(pairs) => parameters_problem(pairs, 0),
                        _ => Some("fn parameters must be a vector"@),
                    }
                },
                _ => Some("generic binder must be a symbol"@),
            }
        }
    }
}

/// What an expression stands for.
pub open spec fn written(e: SSurface) -> SExpr
    decreases e, 3nat,
{
    match e {
        SSurface::Nil => SExpr::Unit,
        SSurface::Str(v) => SExpr::Str(v),
        SSurface::Int(v) => SExpr::Int(v),
        SSurface::Float(v) => SExpr::Float(v),
        SSurface::Bool(v) => SExpr::Bool(v),
        SSurface::Keyword(v) => SExpr::Keyword(v),
        SSurface::Symbol(v) => SExpr::Name(v),
        SSurface::Vector(items) => SExpr::Vector(written_all(items, 0)),
        SSurface::Braces(pairs) => if keys_valid(pairs) {
            SExpr::Fields(written_pairs(pairs))
        } else {
            invalid("record key must be a keyword, symbol, or string"@)
        },
        SSurface::List(items) => written_list(items),
    }
}

pub open spec fn written_all(items: Seq<SSurface>, from: nat) -> Seq<SExpr>
    decreases items, 0nat,
{
    Seq::new(
        (if from <= items.len() {
            items.len() - from
        } else {
            0
        }) as nat,
        |i: int|
            if 0 <= i + from < items.len() {
                written(items[i + from])
            } else {
                arbitrary()
            },
    )
}

pub open spec fn written_pairs(pairs: Seq<(SSurface, SSurface)>) -> Seq<(Seq<char>, SExpr)>
    decreases pairs, 0nat,
{
    Seq::new(
        pairs.len(),
        |i: int|
            if 0 <= i < pairs.len() {
                (field_key(pairs[i].0)->Some_0, written(pairs[i].1))
            } else {
                arbitrary()
            },
    )
}

pub open spec fn written_arms(items: Seq<SSurface>, from: nat) -> Seq<SMatchArm>
    decreases items, 0nat,
{
    Seq::new(
        (if from <= items.len() {
            items.len() - from
        } else {
            0
        }) as nat,
        |i: int|
            if 0 <= i + from < items.len() {
                match items[i + from] {
                    SSurface::Vector(parts) => if parts.len() == 3 {
                        SMatchArm {
                            constructor: symbol(parts[0])->Some_0,
                            binding: symbol(parts[1])->Some_0,
                            body: Box::new(written(parts[2])),
                        }
                    } else {
                        arbitrary()
                    },
                    _ => arbitrary(),
                }
            } else {
                arbitrary()
            },
    )
}

/// The items of a block from a place on.
pub open spec fn written_items(items: Seq<SSurface>, from: nat) -> Seq<SItem>
    decreases items, 0nat,
{
    Seq::new(
        (if from <= items.len() {
            items.len() - from
        } else {
            0
        }) as nat,
        |i: int|
            if 0 <= i + from < items.len() {
                written_item(items[i + from])
            } else {
                arbitrary()
            },
    )
}

/// What an item of a block stands for.
pub open spec fn written_item(e: SSurface) -> SItem
    decreases e, 4nat,
{
    match e {
        SSurface::List(items) => if head(items) == Some("let"@) {
            if items.len() != 3 {
                SItem::Invalid(SAuthoringError::Type("let expects a name and value"@))
            } else {
                match symbol(items[1]) {
                    Some(name) => SItem::Let(name, written(items[2])),
                    None => SItem::Invalid(SAuthoringError::Type("let name must be a symbol"@)),
                }
            }
        } else {
            SItem::Expr(written(e))
        },
        _ => SItem::Expr(written(e)),
    }
}

/// What a list stands for.
pub open spec fn written_list(items: Seq<SSurface>) -> SExpr
    decreases items, 2nat,
{
    if items.len() == 0 {
        SExpr::Unit
    } else if head(items) == Some("let"@) {
        invalid("let is only valid directly in a source or function block"@)
    } else if head(items) == Some("if"@) {
        if items.len() < 3 || items.len() > 4 {
            invalid("if expects 2-3 arguments"@)
        } else {
            SExpr::If(
                Box::new(written(items[1])),
                Box::new(written(items[2])),
                Box::new(
                    if items.len() == 4 {
                        written(items[3])
                    } else {
                        SExpr::Unit
                    },
                ),
            )
        }
    } else if head(items) == Some("match"@) {
        if items.len() < 3 {
            invalid("match expects a value and at least one arm"@)
        } else {
            match arms_problem(items, 2) {
                Some(p) => invalid(p),
                None => SExpr::Match(Box::new(written(items[1])), written_arms(items, 2)),
            }
        }
    } else if head(items) == Some("construct"@) {
        if items.len() != 4 {
            invalid("construct expects an ADT type, constructor, and payload"@)
        } else {
            match symbol(items[2]) {
                Some(name) => SExpr::Construct(
                    written_type(items[1]),
                    name,
                    Box::new(written(items[3])),
                ),
                None => invalid("construct constructor must be a symbol"@),
            }
        }
    } else if head(items) == Some("as"@) {
        if items.len() != 3 {
            invalid("as expects a type and value"@)
        } else {
            SExpr::Ascribe(written_type(items[1]), Box::new(written(items[2])))
        }
    } else if head(items) == Some("type-tag"@) {
        if items.len() != 2 {
            invalid("type-tag expects one type"@)
        } else {
            SExpr::TypeTag(written_type(items[1]))
        }
    } else if head(items) == Some("fn"@) {
        written_function(items)
    } else {
        SExpr::Call(Box::new(written(items[0])), written_all(items, 1))
    }
}

/// What a function's list stands for.
pub open spec fn written_function(items: Seq<SSurface>) -> SExpr
    decreases items, 1nat,
{
    match function_problem(items) {
        Some(p) => invalid(p),
        None => {
            let (binder, params, arrow) = function_parts(items);
            SExpr::Function(
                SFunction {
                    type_params: symbols(binder->Vector_0),
                    params: written_parameters(params->Vector_0),
                    result: written_type(items[arrow as int + 1]),
                    body: written_items(items, arrow + 2),
                },
            )
        },
    }
}

fn make_invalid(message: &str) -> (r: authored::Expr)
    ensures
        r@ == invalid(message@),
{
    authored::Expr::Invalid(AuthoringError::Type(message.to_owned()))
}

fn lower_expr(e: &Expr) -> (r: authored::Expr)
    ensures
        r@ == written(e@),
    decreases e, 3nat,
{
    match e {
        Expr::Nil => authored::Expr::Unit,
        Expr::Str(v) => authored::Expr::Str(v.clone()),
        Expr::Int(v) => authored::Expr::Int(*v),
        Expr::Float(v) => authored::Expr::Float(v.clone()),
        Expr::Bool(v) => authored::Expr::Bool(*v),
        Expr::Keyword(v) => authored::Expr::Keyword(v.clone()),
        Expr::Symbol(v) => authored::Expr::Name(v.clone()),
        Expr::Vector(items) => {
            assert(e@ == SSurface::Vector(surfaces_view(items@)));
            let made = lower_all(items, 0);
            let r = authored::Expr::Vector(made);
            assert(r@ == SExpr::Vector(exprs_view(made@)));
            r
        },
        Expr::Braces(pairs) => {
            assert(e@ == SSurface::Braces(pairs_view(pairs@)));
            match lower_pairs(pairs) {
                Some(fields) => {
                    let r = authored::Expr::Fields(fields);
                    assert(r@ == SExpr::Fields(expr_fields_view(fields@)));
                    r
                },
                None => make_invalid("record key must be a keyword, symbol, or string"),
            }
        },
        Expr::List(items) => {
            assert(e@ == SSurface::List(surfaces_view(items@)));
            lower_list(items)
        },
    }
}

fn lower_all(items: &Vec<Expr>, from: usize) -> (r: Vec<authored::Expr>)
    requires
        from <= items@.len(),
    ensures
        exprs_view(r@) == written_all(surfaces_view(items@), from as nat),
    decreases items, 0nat,
{
    let ghost all = surfaces_view(items@);
    let mut r: Vec<authored::Expr> = Vec::new();
    let mut i: usize = from;
    assert(all.len() == items@.len());
    while i < items.len()
        invariant
            from <= i <= items@.len(),
            all == surfaces_view(items@),
            all.len() == items@.len(),
            r.len() == i - from,
            forall|j: int| 0 <= j < i - from ==> (#[trigger] r@[j])@ == written(all[j + from]),
        decreases items.len() - i,
    {
        assert(all[i as int] == items@[i as int]@);
        r.push(lower_expr(&items[i]));
        i = i + 1;
    }
    assert(exprs_view(r@) =~= written_all(all, from as nat));
    r
}

fn lower_pairs(pairs: &Vec<(Expr, Expr)>) -> (r: Option<Vec<(String, authored::Expr)>>)
    ensures
        match r {
            Some(f) => keys_valid(pairs_view(pairs@)) && expr_fields_view(f@)
                == written_pairs(pairs_view(pairs@)),
            None => !keys_valid(pairs_view(pairs@)),
        },
    decreases pairs, 0nat,
{
    let ghost all = pairs_view(pairs@);
    let mut r: Vec<(String, authored::Expr)> = Vec::new();
    let mut i: usize = 0;
    assert(all.len() == pairs@.len());
    while i < pairs.len()
        invariant
            i <= pairs@.len(),
            all == pairs_view(pairs@),
            all.len() == pairs@.len(),
            r.len() == i,
            forall|j: int|
                0 <= j < i ==> field_key((#[trigger] all[j]).0) == Some(r@[j].0@) && r@[j].1@
                    == written(all[j].1),
        decreases pairs.len() - i,
    {
        assert(all[i as int] == (pairs@[i as int].0@, pairs@[i as int].1@));
        let ghost so_far = r@;
        match record_key(&pairs[i].0) {
            Some(key) => {
                let value = lower_expr(&pairs[i].1);
                r.push((key, value));
                assert forall|j: int| 0 <= j < i + 1 implies field_key((#[trigger] all[j]).0)
                    == Some(r@[j].0@) && r@[j].1@ == written(all[j].1) by {
                    if j < i {
                        assert(r@[j] == so_far[j]);
                    }
                }
            },
            None => {
                return None;
            },
        }
        i = i + 1;
    }
    assert(expr_fields_view(r@) =~= written_pairs(all)) by {
        assert(expr_fields_view(r@).len() == r@.len());
        assert forall|j: int| 0 <= j < r@.len() implies expr_fields_view(r@)[j]
            == written_pairs(all)[j] by {
            assert(field_key(all[j].0) == Some(r@[j].0@));
        }
    }
    Some(r)
}

fn lower_list(items: &Vec<Expr>) -> (r: authored::Expr)
    ensures
        r@ == written_list(surfaces_view(items@)),
    decreases items, 2nat,
{
    let ghost all = surfaces_view(items@);
    assert(all.len() == items@.len());
    if items.len() == 0 {
        return authored::Expr::Unit;
    }
    proof {
        assert(all[0] == items@[0]@);
        assert(forall|k: int| 0 <= k < items@.len() ==> #[trigger] all[k] == items@[k]@);
    }
    match items[0].as_symbol() {
        Some(h) => {
            if same(h, "let") {
                return make_invalid("let is only valid directly in a source or function block");
            }
            if same(h, "if") {
                return lower_if(items);
            }
            if same(h, "match") {
                return lower_match(items);
            }
            if same(h, "construct") {
                return lower_construct(items);
            }
            if same(h, "as") {
                if items.len() != 3 {
                    return make_invalid("as expects a type and value");
                }
                let target = lower_type(&items[1]);
                let value = lower_expr(&items[2]);
                let r = authored::Expr::Ascribe { target, value: Box::new(value) };
                assert(r@ == SExpr::Ascribe(target@, Box::new(value@)));
                return r;
            }
            if same(h, "type-tag") {
                if items.len() != 2 {
                    return make_invalid("type-tag expects one type");
                }
                return authored::Expr::TypeTag(lower_type(&items[1]));
            }
            if same(h, "fn") {
                return lower_function(items);
            }
        },
        None => {},
    }
    let callee = lower_expr(&items[0]);
    let args = lower_all(items, 1);
    let r = authored::Expr::Call { callee: Box::new(callee), args };
    assert(r@ == SExpr::Call(Box::new(callee@), exprs_view(args@)));
    r
}

fn lower_if(items: &Vec<Expr>) -> (r: authored::Expr)
    requires
        head(surfaces_view(items@)) == Some("if"@),
    ensures
        r@ == written_list(surfaces_view(items@)),
    decreases items, 1nat,
{
    let ghost all = surfaces_view(items@);
    proof {
        assert(all.len() == items@.len());
        assert(forall|k: int| 0 <= k < items@.len() ==> #[trigger] all[k] == items@[k]@);
        distinct_heads();
    }
    if items.len() < 3 || items.len() > 4 {
        return make_invalid("if expects 2-3 arguments");
    }
    let condition = lower_expr(&items[1]);
    let yes = lower_expr(&items[2]);
    let no = if items.len() == 4 {
        lower_expr(&items[3])
    } else {
        authored::Expr::Unit
    };
    let r = authored::Expr::If {
        condition: Box::new(condition),
        then_branch: Box::new(yes),
        else_branch: Box::new(no),
    };
    assert(r@ == SExpr::If(Box::new(condition@), Box::new(yes@), Box::new(no@)));
    r
}

proof fn distinct_heads()
    ensures
        "let"@ != "if"@,
        "let"@ != "match"@,
        "let"@ != "construct"@,
        "if"@ != "match"@,
        "if"@ != "construct"@,
        "match"@ != "construct"@,
        "let"@ != "fn"@,
        "if"@ != "fn"@,
        "match"@ != "fn"@,
        "construct"@ != "fn"@,
        "as"@ != "fn"@,
        "type-tag"@ != "fn"@,
{
    reveal_strlit("let");
    reveal_strlit("if");
    reveal_strlit("match");
    reveal_strlit("construct");
    reveal_strlit("fn");
    reveal_strlit("as");
    reveal_strlit("type-tag");
    assert("let"@[0] == 'l');
    assert("if"@[0] == 'i');
    assert("match"@[0] == 'm');
    assert("construct"@[0] == 'c');
    assert("fn"@[0] == 'f');
    assert("as"@[0] == 'a');
    assert("type-tag"@[0] == 't');
}

fn lower_construct(items: &Vec<Expr>) -> (r: authored::Expr)
    requires
        head(surfaces_view(items@)) == Some("construct"@),
    ensures
        r@ == written_list(surfaces_view(items@)),
    decreases items, 1nat,
{
    let ghost all = surfaces_view(items@);
    proof {
        assert(all.len() == items@.len());
        assert(forall|k: int| 0 <= k < items@.len() ==> #[trigger] all[k] == items@[k]@);
        distinct_heads();
    }
    if items.len() != 4 {
        return make_invalid("construct expects an ADT type, constructor, and payload");
    }
    let constructor = match items[2].as_symbol() {
        Some(n) => n.to_owned(),
        None => {
            return make_invalid("construct constructor must be a symbol");
        },
    };
    let owner = lower_type(&items[1]);
    let payload = lower_expr(&items[3]);
    let r = authored::Expr::Construct { owner, constructor, payload: Box::new(payload) };
    assert(r@ == SExpr::Construct(owner@, constructor@, Box::new(payload@)));
    r
}

pub open spec fn arm_model(arm: MatchArm) -> SMatchArm {
    SMatchArm { constructor: arm.constructor@, binding: arm.binding@, body: Box::new(arm.body@) }
}

fn lower_match(items: &Vec<Expr>) -> (r: authored::Expr)
    requires
        head(surfaces_view(items@)) == Some("match"@),
    ensures
        r@ == written_list(surfaces_view(items@)),
    decreases items, 1nat,
{
    let ghost all = surfaces_view(items@);
    proof {
        assert(all.len() == items@.len());
        assert(forall|k: int| 0 <= k < items@.len() ==> #[trigger] all[k] == items@[k]@);
        distinct_heads();
    }
    if items.len() < 3 {
        return make_invalid("match expects a value and at least one arm");
    }
    let mut arms: Vec<MatchArm> = Vec::new();
    let mut i: usize = 2;
    while i < items.len()
        invariant
            2 <= i <= items@.len(),
            all == surfaces_view(items@),
            all.len() == items@.len(),
            all.len() >= 3,
            head(all) == Some("match"@),
            forall|k: int| 0 <= k < items@.len() ==> #[trigger] all[k] == items@[k]@,
            arms_problem(all, 2) == arms_problem(all, i as nat),
            arms.len() == i - 2,
            forall|j: int| 0 <= j < i - 2 ==> arm_model(#[trigger] arms@[j]) == written_arms(all, 2)[j],
        decreases items.len() - i,
    {
        let ghost e = all[i as int];
        let ghost so_far = arms@;
        proof {
            distinct_heads();
        }
        match &items[i] {
            Expr::Vector(parts) => {
                let ghost ps = surfaces_view(parts@);
                assert(e == SSurface::Vector(ps));
                assert(ps.len() == parts@.len());
                if parts.len() != 3 {
                    return make_invalid("match arm must be [Constructor binding expression]");
                }
                proof {
                    assert(ps[0] == parts@[0]@);
                    assert(ps[1] == parts@[1]@);
                    assert(ps[2] == parts@[2]@);
                }
                let constructor = match parts[0].as_symbol() {
                    Some(n) => n.to_owned(),
                    None => {
                        return make_invalid("match constructor must be a symbol");
                    },
                };
                let binding = match parts[1].as_symbol() {
                    Some(n) => n.to_owned(),
                    None => {
                        return make_invalid("match binding must be a symbol");
                    },
                };
                let body = lower_expr(&parts[2]);
                let arm = MatchArm { constructor, binding, body: Box::new(body) };
                assert(arm_model(arm) == written_arms(all, 2)[i - 2]);
                arms.push(arm);
                assert forall|j: int| 0 <= j < i - 1 implies arm_model(#[trigger] arms@[j])
                    == written_arms(all, 2)[j] by {
                    if j < i - 2 {
                        assert(arms@[j] == so_far[j]);
                    }
                }
            },
            _ => {
                return make_invalid("match arm must be [Constructor binding expression]");
            },
        }
        i = i + 1;
    }
    let value = lower_expr(&items[1]);
    assert(match_arms_view(arms@) =~= written_arms(all, 2));
    let r = authored::Expr::Match { value: Box::new(value), arms };
    assert(r@ == SExpr::Match(Box::new(value@), match_arms_view(arms@)));
    r
}

fn symbol_names(items: &Vec<Expr>) -> (r: Option<Vec<String>>)
    ensures
        match r {
            Some(n) => all_symbols(surfaces_view(items@)) && strings(n@) == symbols(
                surfaces_view(items@),
            ),
            None => !all_symbols(surfaces_view(items@)),
        },
{
    let ghost all = surfaces_view(items@);
    let mut r: Vec<String> = Vec::new();
    let mut i: usize = 0;
    assert(all.len() == items@.len());
    while i < items.len()
        invariant
            i <= items@.len(),
            all == surfaces_view(items@),
            all.len() == items@.len(),
            r.len() == i,
            forall|j: int| 0 <= j < i ==> symbol(#[trigger] all[j]) == Some(r@[j]@),
        decreases items.len() - i,
    {
        let ghost so_far = r@;
        assert(all[i as int] == items@[i as int]@);
        match items[i].as_symbol() {
            Some(s) => {
                r.push(s.to_owned());
                assert forall|j: int| 0 <= j < i + 1 implies symbol(#[trigger] all[j]) == Some(
                    r@[j]@,
                ) by {
                    if j < i {
                        assert(r@[j] == so_far[j]);
                    }
                }
            },
            None => {
                return None;
            },
        }
        i = i + 1;
    }
    assert(strings(r@) =~= symbols(all)) by {
        assert forall|j: int| 0 <= j < r@.len() implies strings(r@)[j] == symbols(all)[j] by {
            assert(symbol(all[j]) == Some(r@[j]@));
        }
    }
    Some(r)
}

fn lower_parameters(items: &Vec<Expr>) -> (r: Result<Vec<Parameter>, &'static str>)
    ensures
        match r {
            Ok(p) => parameters_problem(surfaces_view(items@), 0) is None && parameters_view(p@)
                == written_parameters(surfaces_view(items@)),
            Err(m) => parameters_problem(surfaces_view(items@), 0) == Some(m@),
        },
{
    let ghost all = surfaces_view(items@);
    let mut r: Vec<Parameter> = Vec::new();
    let mut i: usize = 0;
    assert(all.len() == items@.len());
    while i < items.len()
        invariant
            i <= items@.len(),
            all == surfaces_view(items@),
            all.len() == items@.len(),
            parameters_problem(all, 0) == parameters_problem(all, i as nat),
            r.len() == i,
            forall|j: int|
                0 <= j < i ==> ((#[trigger] r@[j]).name@, r@[j].ty@) == written_parameters(all)[j],
        decreases items.len() - i,
    {
        let ghost so_far = r@;
        assert(all[i as int] == items@[i as int]@);
        match &items[i] {
            Expr::Vector(pair) => {
                let ghost ps = surfaces_view(pair@);
                assert(all[i as int] == SSurface::Vector(ps));
                assert(ps.len() == pair@.len());
                if pair.len() != 2 {
                    return Err("parameter must be [name Type]");
                }
                proof {
                    assert(ps[0] == pair@[0]@);
                    assert(ps[1] == pair@[1]@);
                }
                let name = match pair[0].as_symbol() {
                    Some(n) => n.to_owned(),
                    None => {
                        return Err("parameter name must be a symbol");
                    },
                };
                let ty = lower_type(&pair[1]);
                r.push(Parameter { name, ty });
                assert forall|j: int| 0 <= j < i + 1 implies ((#[trigger] r@[j]).name@, r@[j].ty@)
                    == written_parameters(all)[j] by {
                    if j < i {
                        assert(r@[j] == so_far[j]);
                    }
                }
            },
            _ => {
                return Err("parameter must be [name Type]");
            },
        }
        i = i + 1;
    }
    assert(parameters_view(r@) =~= written_parameters(all));
    Ok(r)
}

fn is_arrow(e: &Expr) -> (r: bool)
    ensures
        r == (e@ == SSurface::Symbol("->"@)),
{
    match e {
        Expr::Symbol(s) => same(s, "->"),
        _ => false,
    }
}

fn lower_function(items: &Vec<Expr>) -> (r: authored::Expr)
    ensures
        r@ == written_function(surfaces_view(items@)),
    decreases items, 1nat,
{
    let ghost all = surfaces_view(items@);
    proof {
        assert(all.len() == items@.len());
        assert(forall|k: int| 0 <= k < items@.len() ==> #[trigger] all[k] == items@[k]@);
    }
    if items.len() < 5 {
        return make_invalid("typed fn signature required");
    }
    let bound = match &items[2] {
        Expr::Vector(_) => true,
        _ => false,
    };
    assert(bound == (all[2] is Vector));
    let arrow: usize = if bound {
        3
    } else {
        2
    };
    if !is_arrow(&items[arrow]) {
        return make_invalid("fn signature requires ->");
    }
    let type_params = if bound {
        match &items[1] {
            Expr::Vector(names) => {
                assert(all[1] == SSurface::Vector(surfaces_view(names@)));
                match symbol_names(names) {
                    Some(n) => n,
                    None => {
                        return make_invalid("generic binder must be a symbol");
                    },
                }
            },
            _ => {
                return make_invalid("generic binder must be a symbol");
            },
        }
    } else {
        let none: Vec<String> = Vec::new();
        assert(strings(none@) =~= symbols(Seq::<SSurface>::empty()));
        none
    };
    let params = match &items[arrow - 1] {
        Expr::Vector(pairs) => {
            assert(all[arrow - 1] == SSurface::Vector(surfaces_view(pairs@)));
            match lower_parameters(pairs) {
                Ok(p) => p,
                Err(m) => {
                    return make_invalid(m);
                },
            }
        },
        _ => {
            return make_invalid("fn parameters must be a vector");
        },
    };
    let result = lower_type(&items[arrow + 1]);
    let body = lower_items(items, arrow + 2);
    let f = Function { type_params, params, result, body };
    assert(f.model() =~= SFunction {
        type_params: strings(type_params@),
        params: parameters_view(params@),
        result: result@,
        body: items_view(body@),
    });
    let r = authored::Expr::Function(f);
    assert(r@ == SExpr::Function(f.model()));
    r
}

fn lower_items(items: &Vec<Expr>, from: usize) -> (r: Vec<BlockItem>)
    requires
        from <= items@.len(),
    ensures
        items_view(r@) == written_items(surfaces_view(items@), from as nat),
    decreases items, 0nat,
{
    let ghost all = surfaces_view(items@);
    let mut r: Vec<BlockItem> = Vec::new();
    let mut i: usize = from;
    assert(all.len() == items@.len());
    while i < items.len()
        invariant
            from <= i <= items@.len(),
            all == surfaces_view(items@),
            all.len() == items@.len(),
            r.len() == i - from,
            forall|j: int|
                0 <= j < i - from ==> (#[trigger] r@[j])@ == written_item(all[j + from]),
        decreases items.len() - i,
    {
        assert(all[i as int] == items@[i as int]@);
        r.push(lower_block_item(&items[i]));
        i = i + 1;
    }
    assert(items_view(r@) =~= written_items(all, from as nat));
    r
}

pub fn lower_block_item(e: &Expr) -> (r: BlockItem)
    ensures
        r@ == written_item(e@),
    decreases e, 4nat,
{
    match e {
        Expr::List(items) => {
            let ghost all = surfaces_view(items@);
            proof {
                assert(e@ == SSurface::List(all));
                assert(all.len() == items@.len());
                assert(forall|k: int| 0 <= k < items@.len() ==> #[trigger] all[k] == items@[k]@);
            }
            if items.len() > 0 {
                match items[0].as_symbol() {
                    Some(h) => {
                        if same(h, "let") {
                            if items.len() != 3 {
                                return BlockItem::Invalid(
                                    AuthoringError::Type("let expects a name and value".to_owned()),
                                );
                            }
                            return match items[1].as_symbol() {
                                Some(name) => BlockItem::Let {
                                    name: name.to_owned(),
                                    value: lower_expr(&items[2]),
                                },
                                None => BlockItem::Invalid(
                                    AuthoringError::Type("let name must be a symbol".to_owned()),
                                ),
                            };
                        }
                    },
                    None => {},
                }
            }
            BlockItem::Expr(lower_expr(e))
        },
        _ => BlockItem::Expr(lower_expr(e)),
    }
}

/// What is wrong with a constructor of a type.
pub open spec fn constructor_problem(e: SSurface) -> Option<Seq<char>> {
    match e {
        SSurface::Vector(parts) => if parts.len() != 2 {
            Some("ADT constructor must be [Name PayloadType]"@)
        } else if symbol(parts[0]) is None {
            Some("ADT constructor name must be a symbol"@)
        } else {
            None
        },
        _ => Some("ADT constructor must be [Name PayloadType]"@),
    }
}

pub open spec fn constructors_problem(items: Seq<SSurface>, i: nat) -> Option<Seq<char>>
    decreases items.len() - i,
{
    if i >= items.len() {
        None
    } else {
        match constructor_problem(items[i as int]) {
            Some(p) => Some(p),
            None => constructors_problem(items, i + 1),
        }
    }
}

pub open spec fn written_constructors(items: Seq<SSurface>) -> Seq<(Seq<char>, SAuthoredType)> {
    Seq::new(
        (items.len() - 1) as nat,
        |i: int|
            (
                symbol(items[i + 1]->Vector_0[0])->Some_0,
                written_type(items[i + 1]->Vector_0[1]),
            ),
    )
}

/// The body of a type that is written as a type: a record's fields, or one type under a new name.
pub open spec fn nominal_body(t: SAuthoredType) -> SDeclarationBody {
    match t {
        SAuthoredType::Record(f) => SDeclarationBody::Fields(f),
        other => SDeclarationBody::Newtype(other),
    }
}

/// The body of a type.
pub open spec fn written_body(e: SSurface) -> SDeclarationBody {
    match e {
        SSurface::List(items) => if head(items) == Some("adt"@) {
            match constructors_problem(items, 1) {
                Some(p) => SDeclarationBody::Newtype(SAuthoredType::Invalid(p)),
                None => SDeclarationBody::Adt(written_constructors(items)),
            }
        } else {
            nominal_body(written_type(e))
        },
        _ => nominal_body(written_type(e)),
    }
}

fn make_nominal(t: Type) -> (r: TypeDeclarationBody)
    ensures
        r@ == nominal_body(t@),
{
    match t {
        Type::Record(f) => {
            assert(t@ == SAuthoredType::Record(authored_fields(f@)));
            TypeDeclarationBody::Fields(f)
        },
        other => TypeDeclarationBody::Newtype(other),
    }
}

fn lower_declaration_body(e: &Expr) -> (r: TypeDeclarationBody)
    ensures
        r@ == written_body(e@),
{
    match e {
        Expr::List(items) => {
            let ghost all = surfaces_view(items@);
            proof {
                assert(e@ == SSurface::List(all));
                assert(all.len() == items@.len());
                assert(forall|k: int| 0 <= k < items@.len() ==> #[trigger] all[k] == items@[k]@);
            }
            let adt = if items.len() > 0 {
                match items[0].as_symbol() {
                    Some(h) => same(h, "adt"),
                    None => false,
                }
            } else {
                false
            };
            if !adt {
                return make_nominal(lower_type(e));
            }
            let mut constructors: Vec<ConstructorDeclaration> = Vec::new();
            let mut i: usize = 1;
            while i < items.len()
                invariant
                    1 <= i <= items@.len(),
                    all == surfaces_view(items@),
                    all.len() == items@.len(),
                    e@ == SSurface::List(all),
                    head(all) == Some("adt"@),
                    forall|k: int| 0 <= k < items@.len() ==> #[trigger] all[k] == items@[k]@,
                    constructors_problem(all, 1) == constructors_problem(all, i as nat),
                    constructors.len() == i - 1,
                    forall|j: int|
                        0 <= j < i - 1 ==> (
                            (#[trigger] constructors@[j]).name@,
                            constructors@[j].payload@,
                        ) == written_constructors(all)[j],
                decreases items.len() - i,
            {
                let ghost so_far = constructors@;
                match &items[i] {
                    Expr::Vector(parts) => {
                        let ghost ps = surfaces_view(parts@);
                        assert(all[i as int] == SSurface::Vector(ps));
                        assert(ps.len() == parts@.len());
                        if parts.len() != 2 {
                            return TypeDeclarationBody::Newtype(
                                Type::Invalid(
                                    "ADT constructor must be [Name PayloadType]".to_owned(),
                                ),
                            );
                        }
                        proof {
                            assert(ps[0] == parts@[0]@);
                            assert(ps[1] == parts@[1]@);
                        }
                        let name = match parts[0].as_symbol() {
                            Some(n) => n.to_owned(),
                            None => {
                                return TypeDeclarationBody::Newtype(
                                    Type::Invalid(
                                        "ADT constructor name must be a symbol".to_owned(),
                                    ),
                                );
                            },
                        };
                        let payload = lower_type(&parts[1]);
                        constructors.push(ConstructorDeclaration { name, payload });
                        assert forall|j: int| 0 <= j < i implies (
                            (#[trigger] constructors@[j]).name@,
                            constructors@[j].payload@,
                        ) == written_constructors(all)[j] by {
                            if j < i - 1 {
                                assert(constructors@[j] == so_far[j]);
                            }
                        }
                    },
                    _ => {
                        return TypeDeclarationBody::Newtype(
                            Type::Invalid("ADT constructor must be [Name PayloadType]".to_owned()),
                        );
                    },
                }
                i = i + 1;
            }
            assert(authored_constructors(constructors@) =~= written_constructors(all));
            TypeDeclarationBody::Adt(constructors)
        },
        _ => make_nominal(lower_type(e)),
    }
}

/// What a declaration of a type stands for.
pub open spec fn written_declaration(items: Seq<SSurface>) -> SForm {
    if items.len() < 2 || items.len() > 4 {
        SForm::Invalid(
            SAuthoringError::Eval(
                "type requires a name, optional generic parameters, and a body"@,
            ),
        )
    } else {
        match symbol(items[1]) {
            None => SForm::Invalid(SAuthoringError::Eval("type name must be a symbol"@)),
            Some(name) => if items.len() == 2 {
                SForm::Invalid(SAuthoringError::Type("type declaration requires a body"@))
            } else if items.len() == 3 {
                SForm::Type(
                    STypeDeclaration {
                        name,
                        params: Seq::empty(),
                        body: written_body(items[2]),
                    },
                )
            } else {
                match items[2] {
                    SSurface::Vector(params) => if all_symbols(params) {
                        SForm::Type(
                            STypeDeclaration {
                                name,
                                params: symbols(params),
                                body: written_body(items[3]),
                            },
                        )
                    } else {
                        SForm::Invalid(
                            SAuthoringError::Type("generic parameters must be symbols"@),
                        )
                    },
                    _ => SForm::Invalid(
                        SAuthoringError::Type("generic parameters must be symbols"@),
                    ),
                }
            },
        }
    }
}

/// What a form of a source stands for.
pub open spec fn written_form(e: SSurface) -> SForm {
    match e {
        SSurface::List(items) => if head(items) == Some("require"@) {
            if items.len() != 2 {
                SForm::Invalid(SAuthoringError::Arity(1, (items.len() - 1) as nat))
            } else {
                match items[1] {
                    SSurface::Str(module) => SForm::Require(module, SExposure::Qualified),
                    _ => SForm::Invalid(
                        SAuthoringError::Eval("require expects a module string"@),
                    ),
                }
            }
        } else if head(items) == Some("type"@) {
            written_declaration(items)
        } else {
            SForm::Block(written_item(e))
        },
        _ => SForm::Block(written_item(e)),
    }
}

fn lower_require(items: &Vec<Expr>) -> (r: Form)
    requires
        items@.len() > 0,
    ensures
        r@ == if items@.len() != 2 {
            SForm::Invalid(SAuthoringError::Arity(1, (items@.len() - 1) as nat))
        } else {
            match surfaces_view(items@)[1] {
                SSurface::Str(module) => SForm::Require(module, SExposure::Qualified),
                _ => SForm::Invalid(SAuthoringError::Eval("require expects a module string"@)),
            }
        },
{
    let ghost all = surfaces_view(items@);
    assert(all.len() == items@.len());
    if items.len() != 2 {
        return Form::Invalid(AuthoringError::Arity { expected: 1, got: items.len() - 1 });
    }
    assert(all[1] == items@[1]@);
    match &items[1] {
        Expr::Str(module) => Form::Require(
            Require { module: module.clone(), exposure: ImportExposure::Qualified },
        ),
        _ => Form::Invalid(AuthoringError::Eval("require expects a module string".to_owned())),
    }
}

fn lower_type_declaration(items: &Vec<Expr>) -> (r: Form)
    ensures
        r@ == written_declaration(surfaces_view(items@)),
{
    let ghost all = surfaces_view(items@);
    proof {
        assert(all.len() == items@.len());
        assert(forall|k: int| 0 <= k < items@.len() ==> #[trigger] all[k] == items@[k]@);
    }
    if items.len() < 2 || items.len() > 4 {
        return Form::Invalid(
            AuthoringError::Eval(
                "type requires a name, optional generic parameters, and a body".to_owned(),
            ),
        );
    }
    let name = match items[1].as_symbol() {
        Some(n) => n.to_owned(),
        None => {
            return Form::Invalid(AuthoringError::Eval("type name must be a symbol".to_owned()));
        },
    };
    if items.len() == 2 {
        return Form::Invalid(AuthoringError::Type("type declaration requires a body".to_owned()));
    }
    if items.len() == 3 {
        let body = lower_declaration_body(&items[2]);
        let params: Vec<String> = Vec::new();
        assert(strings(params@) =~= Seq::empty());
        return Form::Type(TypeDeclaration { name, params, body });
    }
    match &items[2] {
        Expr::Vector(binder) => {
            assert(all[2] == SSurface::Vector(surfaces_view(binder@)));
            match symbol_names(binder) {
                Some(params) => {
                    let body = lower_declaration_body(&items[3]);
                    Form::Type(TypeDeclaration { name, params, body })
                },
                None => Form::Invalid(
                    AuthoringError::Type("generic parameters must be symbols".to_owned()),
                ),
            }
        },
        _ => Form::Invalid(AuthoringError::Type("generic parameters must be symbols".to_owned())),
    }
}

fn lower_top_level(e: &Expr) -> (r: Form)
    ensures
        r@ == written_form(e@),
{
    match e {
        Expr::List(items) => {
            let ghost all = surfaces_view(items@);
            proof {
                assert(e@ == SSurface::List(all));
                assert(all.len() == items@.len());
                assert(forall|k: int| 0 <= k < items@.len() ==> #[trigger] all[k] == items@[k]@);
            }
            if items.len() > 0 {
                match items[0].as_symbol() {
                    Some(h) => {
                        if same(h, "require") {
                            return lower_require(items);
                        }
                        if same(h, "type") {
                            return lower_type_declaration(items);
                        }
                    },
                    None => {},
                }
            }
            Form::Block(lower_block_item(e))
        },
        _ => Form::Block(lower_block_item(e)),
    }
}

pub open spec fn written_module(items: Seq<SSurface>) -> Seq<SForm> {
    Seq::new(items.len(), |i: int| written_form(items[i]))
}

pub fn lower_module(expressions: &Vec<Expr>) -> (r: Module)
    ensures
        forms_view(r.forms@) == written_module(surfaces_view(expressions@)),
{
    let ghost all = surfaces_view(expressions@);
    let mut forms: Vec<Form> = Vec::new();
    let mut i: usize = 0;
    assert(all.len() == expressions@.len());
    while i < expressions.len()
        invariant
            i <= expressions@.len(),
            all == surfaces_view(expressions@),
            all.len() == expressions@.len(),
            forms.len() == i,
            forall|j: int| 0 <= j < i ==> (#[trigger] forms@[j])@ == written_form(all[j]),
        decreases expressions.len() - i,
    {
        assert(all[i as int] == expressions@[i as int]@);
        forms.push(lower_top_level(&expressions[i]));
        i = i + 1;
    }
    assert(forms_view(forms@) =~= written_module(all));
    Module { forms }
}

/// What a source stands for.
pub fn compile_source(source: &str) -> (r: Result<Module, MagError>)
    ensures
        crate::frontend::module_result(r) == match read_source(source@) {
            Ok(e) => Ok(written_module(e)),
            Err(e) => Err(e),
        },
{
    let expressions = parse(source)?;
    Ok(lower_module(&expressions))
}

} // verus!
