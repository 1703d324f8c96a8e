//! A compiler for MAG, a small typed language whose programs come to an artifact: a JSON document.
//!
//! Source text is read ([`reader`], [`lisp`]) into authored forms ([`authored`]), which are checked
//! ([`infer`], [`compile`], [`requirements`], [`specialize`]) into expressions whose names are
//! resolved ([`ast`]), and evaluated ([`eval`], [`operations`], [`callbacks`]) within limits
//! ([`fuel`], [`limits`]). [`program`] and [`session`] put these together; a program is compiled from
//! nothing but what it is given. [`types`], [`concrete`], [`compatible`] and [`conformance`] are the
//! rules of types, [`json`], [`codec`], [`descriptors`] and [`wire`] those of documents.
//! [`observation`] and [`project_cache`] decide when an artifact that was built before may be used
//! again.
//!
//! Every function says in its contract what it returns, over the models of its arguments. What holds
//! of the compiler as a whole is stated by public proof functions, among them those of [`leeway`],
//! [`recall`], [`callers`], [`spending`], [`roundtrip`] and [`coverage`]. What programs are written as is
//! stated in [`reading`], [`showing`] and [`wording`]; what types have to do with the values that have
//! them in [`suitability`], [`soundness`], [`typing`] and [`choosing`]; what names are visible in
//! [`visibility`]; what expressions and operations come to in [`evaluation`] and [`meaning`]; when
//! values are equal in [`equality`] and [`agreeing`]; and how values and documents correspond in
//! [`documents`], [`restoring`], [`conforming`] and [`contents`].

use vstd::prelude::*;

pub mod agreeing;
pub mod ast;
pub mod authored;
pub mod bindings;
pub mod build_request;
pub mod builtins;
pub mod callbacks;
pub mod callers;
pub mod calls;
pub mod candidates;
pub mod choosing;
pub mod codec;
pub mod collection;
pub mod compatible;
pub mod compile;
pub mod concrete;
pub mod conformance;
pub mod conforming;
pub mod contents;
pub mod coverage;
pub mod descriptors;
pub mod diagnostics;
pub mod distinct;
pub mod documents;
pub mod env;
pub mod equality;
pub mod error;
pub mod eval;
pub mod evaluation;
pub mod files;
pub mod frames;
pub mod frontend;
pub mod fuel;
pub mod holding;
pub mod identities;
pub mod identity;
pub mod infer;
pub mod json;
pub mod leeway;
pub mod limits;
pub mod lisp;
pub mod meaning;
pub mod memo;
pub mod modules;
pub mod observation;
pub mod operations;
pub mod program;
pub mod project_cache;
pub mod project_config;
pub mod reader;
pub mod reading;
pub mod recall;
pub mod requirements;
pub mod resolve;
pub mod resolver;
pub mod restoring;
pub mod roundtrip;
pub mod session;
pub mod showing;
pub mod soundness;
pub mod specialize;
pub mod spending;
pub mod structure;
pub mod substitution;
pub mod suitability;
pub mod surface;
pub mod templates;
pub mod text;
pub mod type_rules;
pub mod types;
pub mod typing;
pub mod value_types;
pub mod values;
pub mod visibility;
pub mod wire;
pub mod wording;
pub mod world;

pub use crate::limits::{CompilerLimits, CompilerOptions};
pub use crate::session::{
    CompileRequest, CompilerSession, CompilerSessionStats, FileCompileRequest,
};

verus! {

} // verus!
