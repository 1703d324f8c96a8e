//! What is written between brackets, before it means anything.

use vstd::prelude::*;

use crate::ast::{Float, SFloat};

verus! {

#[derive(Debug)]
pub enum Expr {
    Str(String),
    Int(i64),
    Float(Float),
    Bool(bool),
    Nil,
    Keyword(String),
    Symbol(String),
    /// What stands in square brackets.
    Vector(Vec<Expr>),
    /// What stands in curly brackets.
    Braces(Vec<(Expr, Expr)>),
    /// What stands in round brackets.
    List(Vec<Expr>),
}

/// The model of an [`Expr`].
#[verifier::ext_equal]
pub enum SSurface {
    Str(Seq<char>),
    Int(i64),
    Float(SFloat),
    Bool(bool),
    Nil,
    Keyword(Seq<char>),
    Symbol(Seq<char>),
    Vector(Seq<SSurface>),
    Braces(Seq<(SSurface, SSurface)>),
    List(Seq<SSurface>),
}

impl Expr {
    pub open spec fn model(self) -> SSurface
        decreases self,
    {
        match self {
            Expr::Str(s) => SSurface::Str(s@),
            Expr::Int(n) => SSurface::Int(n),
            Expr::Float(f) => SSurface::Float(f@),
            Expr::Bool(b) => SSurface::Bool(b),
            Expr::Nil => SSurface::Nil,
            Expr::Keyword(s) => SSurface::Keyword(s@),
            Expr::Symbol(s) => SSurface::Symbol(s@),
            Expr::Vector(items) => SSurface::Vector(surfaces_view(items@)),
            Expr::Braces(items) => SSurface::Braces(pairs_view(items@)),
            Expr::List(items) => SSurface::List(surfaces_view(items@)),
        }
    }
}

pub open spec fn surfaces_view(items: Seq<Expr>) -> Seq<SSurface>
    decreases items,
{
    Seq::new(
        items.len(),
        |i: int|
            if 0 <= i < items.len() {
                items[i].model()
            } else {
                arbitrary()
            },
    )
}

pub open spec fn pairs_view(items: Seq<(Expr, Expr)>) -> Seq<(SSurface, SSurface)>
    decreases items,
{
    Seq::new(
        items.len(),
        |i: int|
            if 0 <= i < items.len() {
                (items[i].0.model(), items[i].1.model())
            } else {
                arbitrary()
            },
    )
}

impl View for Expr {
    type V = SSurface;

    open spec fn view(&self) -> SSurface {
        self.model()
    }
}

/// The symbol that an expression is.
pub open spec fn symbol(e: SSurface) -> Option<Seq<char>> {
    match e {
        SSurface::Symbol(s) => Some(s),
        _ => None,
    }
}

/// The symbol that a list starts with.
pub open spec fn head(items: Seq<SSurface>) -> Option<Seq<char>> {
    if items.len() == 0 {
        None
    } else {
        symbol(items[0])
    }
}

impl Expr {
    pub fn as_symbol(&self) -> (r: Option<&str>)
        ensures
            match r {
                Some(s) => symbol(self@) == Some(s@),
                None => symbol(self@) is None,
            },
    {
        match self {
            Expr::Symbol(s) => Some(s.as_str()),
            _ => None,
        }
    }

    pub fn as_keyword(&self) -> (r: Option<&str>)
        ensures
            match r {
                Some(s) => self@ == SSurface::Keyword(s@),
                None => !(self@ is Keyword),
            },
    {
        match self {
            Expr::Keyword(s) => Some(s.as_str()),
            _ => None,
        }
    }

    pub fn as_str(&self) -> (r: Option<&str>)
        ensures
            match r {
                Some(s) => self@ == SSurface::Str(s@),
                None => !(self@ is Str),
            },
    {
        match self {
            Expr::Str(s) => Some(s.as_str()),
            _ => None,
        }
    }

    pub fn as_list(&self) -> (r: Option<&Vec<Expr>>)
        ensures
            match r {
                Some(items) => self@ == SSurface::List(surfaces_view(items@)),
                None => !(self@ is List),
            },
    {
        match self {
            Expr::List(items) => Some(items),
            _ => None,
        }
    }
}

} // verus!
