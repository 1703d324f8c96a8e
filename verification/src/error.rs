//! The errors of the compiler.

use vstd::prelude::*;

use crate::text::{cat2, cat4, decimal, show_usize};

verus! {

#[derive(Debug)]
pub enum MagError {
    Type(String),
    Eval(String),
    Arity { expected: usize, got: usize },
    Unresolved(String),
    Budget(String),
    Lex(String),
    Parse(String),
    Syntax(Box<SyntaxDiagnostic>),
}

/// A positioned report of the source frontends.
#[derive(Debug)]
pub struct SyntaxDiagnostic {
    pub code: String,
    pub stage: String,
    pub message: String,
    pub path: Option<String>,
    pub syntax: Option<String>,
}

/// The model of a [`MagError`].
#[verifier::ext_equal]
pub enum SError {
    Type(Seq<char>),
    Eval(Seq<char>),
    Arity(nat, nat),
    Unresolved(Seq<char>),
    Budget(Seq<char>),
    Lex(Seq<char>),
    Parse(Seq<char>),
    Syntax(Seq<char>, Seq<char>, Seq<char>, Option<Seq<char>>, Option<Seq<char>>),
}

pub open spec fn opt_text(text: Option<String>) -> Option<Seq<char>> {
    match text {
        Some(t) => Some(t@),
        None => None,
    }
}

impl View for MagError {
    type V = SError;

    open spec fn view(&self) -> SError {
        match self {
            MagError::Type(m) => SError::Type(m@),
            MagError::Eval(m) => SError::Eval(m@),
            MagError::Arity { expected, got } => SError::Arity(*expected as nat, *got as nat),
            MagError::Unresolved(m) => SError::Unresolved(m@),
            MagError::Budget(m) => SError::Budget(m@),
            MagError::Lex(m) => SError::Lex(m@),
            MagError::Parse(m) => SError::Parse(m@),
            MagError::Syntax(d) => SError::Syntax(
                d.code@,
                d.stage@,
                d.message@,
                opt_text(d.path),
                opt_text(d.syntax),
            ),
        }
    }
}

impl Clone for SyntaxDiagnostic {
    fn clone(&self) -> (r: SyntaxDiagnostic)
        ensures
            r.code@ == self.code@,
            r.stage@ == self.stage@,
            r.message@ == self.message@,
            opt_text(r.path) == opt_text(self.path),
            opt_text(r.syntax) == opt_text(self.syntax),
    {
        SyntaxDiagnostic {
            code: self.code.clone(),
            stage: self.stage.clone(),
            message: self.message.clone(),
            path: match &self.path {
                Some(p) => Some(p.clone()),
                None => None,
            },
            syntax: match &self.syntax {
                Some(p) => Some(p.clone()),
                None => None,
            },
        }
    }
}

impl Clone for MagError {
    fn clone(&self) -> (r: MagError)
        ensures
            r@ == self@,
    {
        match self {
            MagError::Type(m) => MagError::Type(m.clone()),
            MagError::Eval(m) => MagError::Eval(m.clone()),
            MagError::Arity { expected, got } => MagError::Arity { expected: *expected, got: *got },
            MagError::Unresolved(m) => MagError::Unresolved(m.clone()),
            MagError::Budget(m) => MagError::Budget(m.clone()),
            MagError::Lex(m) => MagError::Lex(m.clone()),
            MagError::Parse(m) => MagError::Parse(m.clone()),
            MagError::Syntax(d) => MagError::Syntax(Box::new((**d).clone())),
        }
    }
}

/// The text of an error, as a message embeds it.
pub open spec fn error_text(error: SError) -> Seq<char> {
    match error {
        SError::Type(m) => "type error: "@ + m,
        SError::Eval(m) => "evaluation error: "@ + m,
        SError::Arity(expected, got) => "arity mismatch: expected "@ + decimal(expected) + ", got "@
            + decimal(got),
        SError::Unresolved(m) => "unresolved symbol: "@ + m,
        SError::Budget(m) => "budget exhausted: "@ + m,
        SError::Lex(m) => "lex error: "@ + m,
        SError::Parse(m) => "parse error: "@ + m,
        SError::Syntax(_, _, m, _, _) => m,
    }
}

impl MagError {
    /// The text of the error, as a message embeds it.
    pub fn text(&self) -> (r: String)
        ensures
            r@ == error_text(self@),
    {
        match self {
            MagError::Type(m) => cat2("type error: ", m),
            MagError::Eval(m) => cat2("evaluation error: ", m),
            MagError::Arity { expected, got } => cat4(
                "arity mismatch: expected ",
                &show_usize(*expected),
                ", got ",
                &show_usize(*got),
            ),
            MagError::Unresolved(m) => cat2("unresolved symbol: ", m),
            MagError::Budget(m) => cat2("budget exhausted: ", m),
            MagError::Lex(m) => cat2("lex error: ", m),
            MagError::Parse(m) => cat2("parse error: ", m),
            MagError::Syntax(d) => d.message.clone(),
        }
    }
}

} // verus!
