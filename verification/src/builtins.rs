//! The builtin functions: their names and their types.

use vstd::prelude::*;

use crate::compatible::{compatible_with_bindable, fit_binding};
use crate::env::{Env, SEnv};
use crate::substitution::{internal_type_variables, internal_vars, Substitution};
use crate::text::{cat2, same};
use crate::types::{clone_types, fields_view, types_view, MagType, SType};

verus! {

broadcast use vstd::seq_lib::group_seq_properties;

/// The names of the builtin functions.
#[verifier::opaque]
pub open spec fn builtin_list() -> Seq<Seq<char>> {
    seq![
        "__map-empty"@,
        "__map-insert"@,
        "__map-put"@,
        "__map-get"@,
        "__map-get-or"@,
        "__map-contains"@,
        "__map-count"@,
        "__map-union-left"@,
        "__set-empty"@,
        "__set-insert"@,
        "__set-contains"@,
        "__set-count"@,
        "str"@,
        "strip-margin"@,
        "replace"@,
        "map"@,
        "group-by"@,
        "indexed-map"@,
        "filter"@,
        "flat-map"@,
        "fold"@,
        "concat"@,
        "get"@,
        "assoc"@,
        "keys"@,
        "count"@,
        "first"@,
        "canonical"@,
        "function-name"@,
        "sort-by"@,
        "remove-at"@,
        "conforms?"@,
        "or"@,
        "not"@,
        "="@,
        "fail"@,
        "type-evidence"@,
        "read"@,
        "read-json"@,
        "require"@,
        "artifact"@,
        "type-schema"@,
        "type-id"@,
        "value-type-id"@,
        "value-type-evidence"@,
        "pack"@,
        "packed-empty-record?"@,
        "packed-record-has-only-key?"@,
        "packed-record-has-only-keys?"@,
        "packed-field-conforms?"@,
        "descriptor-accepts?"@,
        "descriptor-accepts-value?"@,
        "descriptor-input-covered-by?"@,
        "descriptor-input-assignments"@,
        "descriptor-output-covered-by?"@,
        "descriptor-table"@,
        "host-input"@,
    ]
}

/// Lists the builtin functions.
pub fn builtin_names() -> (r: Vec<&'static str>)
    ensures
        r@.len() == builtin_list().len(),
        forall|i: int| 0 <= i < r@.len() ==> (#[trigger] r@[i])@ == builtin_list()[i],
{
    proof {
        reveal(builtin_list);
    }
    vec![
        "__map-empty",
        "__map-insert",
        "__map-put",
        "__map-get",
        "__map-get-or",
        "__map-contains",
        "__map-count",
        "__map-union-left",
        "__set-empty",
        "__set-insert",
        "__set-contains",
        "__set-count",
        "str",
        "strip-margin",
        "replace",
        "map",
        "group-by",
        "indexed-map",
        "filter",
        "flat-map",
        "fold",
        "concat",
        "get",
        "assoc",
        "keys",
        "count",
        "first",
        "canonical",
        "function-name",
        "sort-by",
        "remove-at",
        "conforms?",
        "or",
        "not",
        "=",
        "fail",
        "type-evidence",
        "read",
        "read-json",
        "require",
        "artifact",
        "type-schema",
        "type-id",
        "value-type-id",
        "value-type-evidence",
        "pack",
        "packed-empty-record?",
        "packed-record-has-only-key?",
        "packed-record-has-only-keys?",
        "packed-field-conforms?",
        "descriptor-accepts?",
        "descriptor-accepts-value?",
        "descriptor-input-covered-by?",
        "descriptor-input-assignments",
        "descriptor-output-covered-by?",
        "descriptor-table",
        "host-input",
    ]
}

/// A type variable of a builtin's signature.
pub open spec fn bvar(name: Seq<char>) -> SType {
    SType::Var("\0builtin."@ + name)
}

pub open spec fn slist(item: SType) -> SType {
    SType::List(Box::new(item))
}

pub open spec fn sset(item: SType) -> SType {
    SType::SetOf(Box::new(item))
}

pub open spec fn smap(key: SType, value: SType) -> SType {
    SType::MapOf(Box::new(key), Box::new(value))
}

pub open spec fn stag(t: SType) -> SType {
    SType::TypeTag(Box::new(t))
}

pub open spec fn sfun(params: Seq<SType>, result: SType) -> SType {
    SType::Function(params, Box::new(result))
}

pub fn var(name: &str) -> (r: MagType)
    ensures
        r@ == bvar(name@),
{
    MagType::Var(cat2("\0builtin.", name))
}

pub fn list(item: MagType) -> (r: MagType)
    ensures
        r@ == slist(item@),
{
    MagType::List(Box::new(item))
}

pub fn set_of(item: MagType) -> (r: MagType)
    ensures
        r@ == sset(item@),
{
    MagType::SetOf(Box::new(item))
}

pub fn map_of(key: MagType, value: MagType) -> (r: MagType)
    ensures
        r@ == smap(key@, value@),
{
    MagType::MapOf(Box::new(key), Box::new(value))
}

pub fn tag(t: MagType) -> (r: MagType)
    ensures
        r@ == stag(t@),
{
    MagType::TypeTag(Box::new(t))
}

fn empty_record() -> (r: MagType)
    ensures
        r@ == SType::Record(Seq::empty()),
{
    let none: Vec<(String, MagType)> = Vec::new();
    assert(fields_view(none@) =~= Seq::empty());
    MagType::Record(none)
}

pub fn types1(a: MagType) -> (r: Vec<MagType>)
    ensures
        types_view(r@) == seq![a@],
{
    let r = vec![a];
    assert(types_view(r@) =~= seq![a@]);
    r
}

pub fn types2(a: MagType, b: MagType) -> (r: Vec<MagType>)
    ensures
        types_view(r@) == seq![a@, b@],
{
    let r = vec![a, b];
    assert(types_view(r@) =~= seq![a@, b@]);
    r
}

pub fn types3(a: MagType, b: MagType, c: MagType) -> (r: Vec<MagType>)
    ensures
        types_view(r@) == seq![a@, b@, c@],
{
    let r = vec![a, b, c];
    assert(types_view(r@) =~= seq![a@, b@, c@]);
    r
}

pub fn fun1(a: MagType, result: MagType) -> (r: MagType)
    ensures
        r@ == sfun(seq![a@], result@),
{
    MagType::Function(types1(a), Box::new(result))
}

pub fn fun2(a: MagType, b: MagType, result: MagType) -> (r: MagType)
    ensures
        r@ == sfun(seq![a@, b@], result@),
{
    MagType::Function(types2(a, b), Box::new(result))
}

pub fn fun3(a: MagType, b: MagType, c: MagType, result: MagType) -> (r: MagType)
    ensures
        r@ == sfun(seq![a@, b@, c@], result@),
{
    MagType::Function(types3(a, b, c), Box::new(result))
}

pub fn function(params: Vec<MagType>, result: MagType) -> (r: MagType)
    ensures
        r@ == sfun(types_view(params@), result@),
{
    MagType::Function(params, Box::new(result))
}

fn no_types() -> (r: Vec<MagType>)
    ensures
        types_view(r@) == Seq::<SType>::empty(),
{
    let r: Vec<MagType> = Vec::new();
    assert(types_view(r@) =~= Seq::empty());
    r
}

/// The signatures of the builtins on maps and sets.
pub open spec fn collection_types(name: Seq<char>) -> Seq<SType> {
    if name == "__map-empty"@ {
        seq![sfun(seq![stag(bvar("key"@))], smap(bvar("key"@), bvar("value"@))), sfun(seq![stag(bvar("key"@)), stag(bvar("value"@))], smap(bvar("key"@), bvar("value"@)))]
    } else if name == "__map-insert"@ {
        seq![sfun(seq![smap(bvar("key"@), bvar("value"@)), bvar("key"@), bvar("value"@)], smap(bvar("key"@), bvar("value"@)))]
    } else if name == "__map-put"@ {
        seq![sfun(seq![smap(bvar("key"@), bvar("value"@)), bvar("key"@), bvar("value"@)], smap(bvar("key"@), bvar("value"@)))]
    } else if name == "__map-get-or"@ {
        seq![sfun(seq![smap(bvar("key"@), bvar("value"@)), bvar("key"@), bvar("value"@)], bvar("value"@))]
    } else if name == "__map-get"@ {
        seq![sfun(seq![smap(bvar("key"@), bvar("value"@)), bvar("key"@)], bvar("value"@))]
    } else if name == "__map-contains"@ {
        seq![sfun(seq![smap(bvar("key"@), bvar("value"@)), bvar("key"@)], SType::Bool)]
    } else if name == "__map-count"@ {
        seq![sfun(seq![smap(bvar("key"@), bvar("value"@))], SType::Int)]
    } else if name == "__map-union-left"@ {
        seq![sfun(seq![smap(bvar("key"@), bvar("value"@)), smap(bvar("key"@), bvar("value"@))], smap(bvar("key"@), bvar("value"@)))]
    } else if name == "__set-empty"@ {
        seq![sfun(seq![stag(bvar("item"@))], sset(bvar("item"@)))]
    } else if name == "__set-insert"@ {
        seq![sfun(seq![sset(bvar("item"@)), bvar("item"@)], sset(bvar("item"@)))]
    } else if name == "__set-contains"@ {
        seq![sfun(seq![sset(bvar("item"@)), bvar("item"@)], SType::Bool)]
    } else if name == "__set-count"@ {
        seq![sfun(seq![sset(bvar("item"@))], SType::Int)]
    } else {
        Seq::empty()
    }
}

fn collection_signatures(name: &str) -> (r: Vec<MagType>)
    ensures
        types_view(r@) == collection_types(name@),
{
    if same(name, "__map-empty") {
        types2(fun1(tag(var("key")), map_of(var("key"), var("value"))), fun2(tag(var("key")), tag(var("value")), map_of(var("key"), var("value"))))
    } else if same(name, "__map-insert") {
        types1(fun3(map_of(var("key"), var("value")), var("key"), var("value"), map_of(var("key"), var("value"))))
    } else if same(name, "__map-put") {
        types1(fun3(map_of(var("key"), var("value")), var("key"), var("value"), map_of(var("key"), var("value"))))
    } else if same(name, "__map-get-or") {
        types1(fun3(map_of(var("key"), var("value")), var("key"), var("value"), var("value")))
    } else if same(name, "__map-get") {
        types1(fun2(map_of(var("key"), var("value")), var("key"), var("value")))
    } else if same(name, "__map-contains") {
        types1(fun2(map_of(var("key"), var("value")), var("key"), MagType::Bool))
    } else if same(name, "__map-count") {
        types1(fun1(map_of(var("key"), var("value")), MagType::Int))
    } else if same(name, "__map-union-left") {
        types1(fun2(map_of(var("key"), var("value")), map_of(var("key"), var("value")), map_of(var("key"), var("value"))))
    } else if same(name, "__set-empty") {
        types1(fun1(tag(var("item")), set_of(var("item"))))
    } else if same(name, "__set-insert") {
        types1(fun2(set_of(var("item")), var("item"), set_of(var("item"))))
    } else if same(name, "__set-contains") {
        types1(fun2(set_of(var("item")), var("item"), MagType::Bool))
    } else if same(name, "__set-count") {
        types1(fun1(set_of(var("item")), MagType::Int))
    } else {
        no_types()
    }
}

/// The signatures of the builtins on text, lists and plain values.
pub open spec fn data_types(name: Seq<char>) -> Seq<SType> {
    if name == "strip-margin"@ {
        seq![sfun(seq![SType::String], SType::String)]
    } else if name == "replace"@ {
        seq![sfun(seq![SType::String, SType::String, SType::String], SType::String)]
    } else if name == "count"@ {
        seq![sfun(seq![slist(bvar("item"@))], SType::Int), sfun(seq![SType::String], SType::Int)]
    } else if name == "first"@ {
        seq![sfun(seq![slist(bvar("item"@))], bvar("item"@))]
    } else if name == "remove-at"@ {
        seq![sfun(seq![slist(bvar("item"@)), SType::Int], slist(bvar("item"@)))]
    } else if name == "concat"@ {
        seq![sfun(seq![slist(bvar("item"@)), slist(bvar("item"@))], slist(bvar("item"@))), sfun(seq![SType::String, SType::String], SType::String)]
    } else if name == "not"@ {
        seq![sfun(seq![SType::Bool], SType::Bool)]
    } else if name == "="@ {
        seq![sfun(seq![bvar("value"@), bvar("value"@)], SType::Bool)]
    } else if name == "host-input"@ {
        seq![sfun(seq![SType::String, stag(bvar("value"@))], bvar("value"@))]
    } else if name == "canonical"@ {
        seq![sfun(seq![bvar("value"@)], SType::String)]
    } else if name == "function-name"@ {
        seq![sfun(seq![sfun(seq![bvar("input"@)], bvar("output"@))], SType::String)]
    } else if name == "fail"@ {
        seq![sfun(seq![bvar("value"@)], SType::Never)]
    } else if name == "read"@ {
        seq![sfun(seq![SType::String], SType::String), sfun(seq![SType::String, bvar("fallback"@)], SType::String)]
    } else if name == "read-json"@ {
        seq![sfun(seq![SType::String], SType::JsonValue)]
    } else if name == "require"@ {
        seq![sfun(seq![SType::String], SType::Unit)]
    } else if name == "artifact"@ {
        seq![sfun(seq![bvar("value"@)], SType::Artifact)]
    } else if name == "or"@ {
        seq![sfun(seq![bvar("value"@), bvar("value"@)], bvar("value"@))]
    } else if name == "keys"@ {
        seq![sfun(seq![SType::Record(Seq::empty())], slist(SType::String))]
    } else if name == "get"@ {
        seq![sfun(seq![SType::Record(Seq::empty()), SType::String], bvar("field"@))]
    } else if name == "assoc"@ {
        seq![sfun(seq![SType::Record(Seq::empty()), SType::String, bvar("field"@)], SType::Record(Seq::empty()))]
    } else {
        Seq::empty()
    }
}

fn data_signatures(name: &str) -> (r: Vec<MagType>)
    ensures
        types_view(r@) == data_types(name@),
{
    if same(name, "strip-margin") {
        types1(fun1(MagType::String, MagType::String))
    } else if same(name, "replace") {
        types1(fun3(MagType::String, MagType::String, MagType::String, MagType::String))
    } else if same(name, "count") {
        types2(fun1(list(var("item")), MagType::Int), fun1(MagType::String, MagType::Int))
    } else if same(name, "first") {
        types1(fun1(list(var("item")), var("item")))
    } else if same(name, "remove-at") {
        types1(fun2(list(var("item")), MagType::Int, list(var("item"))))
    } else if same(name, "concat") {
        types2(fun2(list(var("item")), list(var("item")), list(var("item"))), fun2(MagType::String, MagType::String, MagType::String))
    } else if same(name, "not") {
        types1(fun1(MagType::Bool, MagType::Bool))
    } else if same(name, "=") {
        types1(fun2(var("value"), var("value"), MagType::Bool))
    } else if same(name, "host-input") {
        types1(fun2(MagType::String, tag(var("value")), var("value")))
    } else if same(name, "canonical") {
        types1(fun1(var("value"), MagType::String))
    } else if same(name, "function-name") {
        types1(fun1(fun1(var("input"), var("output")), MagType::String))
    } else if same(name, "fail") {
        types1(fun1(var("value"), MagType::Never))
    } else if same(name, "read") {
        types2(fun1(MagType::String, MagType::String), fun2(MagType::String, var("fallback"), MagType::String))
    } else if same(name, "read-json") {
        types1(fun1(MagType::String, MagType::JsonValue))
    } else if same(name, "require") {
        types1(fun1(MagType::String, MagType::Unit))
    } else if same(name, "artifact") {
        types1(fun1(var("value"), MagType::Artifact))
    } else if same(name, "or") {
        types1(fun2(var("value"), var("value"), var("value")))
    } else if same(name, "keys") {
        types1(fun1(empty_record(), list(MagType::String)))
    } else if same(name, "get") {
        types1(fun2(empty_record(), MagType::String, var("field")))
    } else if same(name, "assoc") {
        types1(fun3(empty_record(), MagType::String, var("field"), empty_record()))
    } else {
        no_types()
    }
}

/// The signatures of the builtins on descriptors and packed values.
pub open spec fn evidence_types(name: Seq<char>) -> Seq<SType> {
    if name == "type-evidence"@ {
        seq![sfun(seq![stag(bvar("value"@))], SType::TypeDescriptor)]
    } else if name == "type-schema"@ {
        seq![sfun(seq![stag(bvar("value"@))], SType::TypeSchema)]
    } else if name == "type-id"@ {
        seq![sfun(seq![SType::TypeDescriptor], SType::SemanticTypeId)]
    } else if name == "value-type-id"@ {
        seq![sfun(seq![bvar("value"@), stag(bvar("value"@))], SType::SemanticTypeId), sfun(seq![bvar("value"@), SType::TypeDescriptor], SType::SemanticTypeId)]
    } else if name == "value-type-evidence"@ {
        seq![sfun(seq![bvar("value"@), SType::TypeDescriptor], SType::TypeDescriptor)]
    } else if name == "conforms?"@ {
        seq![sfun(seq![bvar("value"@), SType::TypeDescriptor], SType::Bool)]
    } else if name == "pack"@ {
        seq![sfun(seq![bvar("value"@)], SType::PackedValue)]
    } else if name == "packed-empty-record?"@ {
        seq![sfun(seq![SType::PackedValue], SType::Bool)]
    } else if name == "packed-record-has-only-key?"@ {
        seq![sfun(seq![SType::PackedValue, SType::String], SType::Bool)]
    } else if name == "packed-record-has-only-keys?"@ {
        seq![sfun(seq![SType::PackedValue, slist(SType::String)], SType::Bool)]
    } else if name == "packed-field-conforms?"@ {
        seq![sfun(seq![SType::PackedValue, SType::String, SType::TypeDescriptor], SType::Bool)]
    } else if name == "descriptor-accepts?"@ || name == "descriptor-accepts-value?"@ {
        seq![sfun(seq![SType::TypeDescriptor, SType::TypeDescriptor], SType::Bool)]
    } else if name == "descriptor-input-covered-by?"@ || name == "descriptor-output-covered-by?"@ {
        seq![sfun(seq![SType::TypeDescriptor, slist(SType::TypeDescriptor)], SType::Bool)]
    } else if name == "descriptor-input-assignments"@ {
        seq![sfun(seq![SType::TypeDescriptor, slist(SType::TypeDescriptor)], slist(SType::Int))]
    } else if name == "descriptor-table"@ {
        seq![sfun(seq![slist(SType::TypeDescriptor)], smap(SType::String, SType::TypeDescriptor))]
    } else {
        Seq::empty()
    }
}

fn evidence_signatures(name: &str) -> (r: Vec<MagType>)
    ensures
        types_view(r@) == evidence_types(name@),
{
    if same(name, "type-evidence") {
        types1(fun1(tag(var("value")), MagType::TypeDescriptor))
    } else if same(name, "type-schema") {
        types1(fun1(tag(var("value")), MagType::TypeSchema))
    } else if same(name, "type-id") {
        types1(fun1(MagType::TypeDescriptor, MagType::SemanticTypeId))
    } else if same(name, "value-type-id") {
        types2(fun2(var("value"), tag(var("value")), MagType::SemanticTypeId), fun2(var("value"), MagType::TypeDescriptor, MagType::SemanticTypeId))
    } else if same(name, "value-type-evidence") {
        types1(fun2(var("value"), MagType::TypeDescriptor, MagType::TypeDescriptor))
    } else if same(name, "conforms?") {
        types1(fun2(var("value"), MagType::TypeDescriptor, MagType::Bool))
    } else if same(name, "pack") {
        types1(fun1(var("value"), MagType::PackedValue))
    } else if same(name, "packed-empty-record?") {
        types1(fun1(MagType::PackedValue, MagType::Bool))
    } else if same(name, "packed-record-has-only-key?") {
        types1(fun2(MagType::PackedValue, MagType::String, MagType::Bool))
    } else if same(name, "packed-record-has-only-keys?") {
        types1(fun2(MagType::PackedValue, list(MagType::String), MagType::Bool))
    } else if same(name, "packed-field-conforms?") {
        types1(fun3(MagType::PackedValue, MagType::String, MagType::TypeDescriptor, MagType::Bool))
    } else if same(name, "descriptor-accepts?") || same(name, "descriptor-accepts-value?") {
        types1(fun2(MagType::TypeDescriptor, MagType::TypeDescriptor, MagType::Bool))
    } else if same(name, "descriptor-input-covered-by?") || same(name, "descriptor-output-covered-by?") {
        types1(fun2(MagType::TypeDescriptor, list(MagType::TypeDescriptor), MagType::Bool))
    } else if same(name, "descriptor-input-assignments") {
        types1(fun2(MagType::TypeDescriptor, list(MagType::TypeDescriptor), list(MagType::Int)))
    } else if same(name, "descriptor-table") {
        types1(fun1(list(MagType::TypeDescriptor), map_of(MagType::String, MagType::TypeDescriptor)))
    } else {
        no_types()
    }
}

/// The signatures of the builtins on functions over lists.
pub open spec fn higher_types(name: Seq<char>) -> Seq<SType> {
    if name == "map"@ {
        seq![sfun(seq![sfun(seq![bvar("item"@)], bvar("result"@)), slist(bvar("item"@))], slist(bvar("result"@)))]
    } else if name == "group-by"@ {
        seq![sfun(seq![sfun(seq![bvar("item"@)], SType::String), slist(bvar("item"@))], smap(SType::String, slist(bvar("item"@))))]
    } else if name == "filter"@ {
        seq![sfun(seq![sfun(seq![bvar("item"@)], SType::Bool), slist(bvar("item"@))], slist(bvar("item"@)))]
    } else if name == "flat-map"@ {
        seq![sfun(seq![sfun(seq![bvar("item"@)], slist(bvar("result"@))), slist(bvar("item"@))], slist(bvar("result"@)))]
    } else if name == "sort-by"@ {
        seq![sfun(seq![sfun(seq![bvar("item"@)], SType::String), slist(bvar("item"@))], slist(bvar("item"@)))]
    } else if name == "indexed-map"@ {
        seq![sfun(seq![sfun(seq![SType::Int, bvar("item"@)], bvar("result"@)), slist(bvar("item"@))], slist(bvar("result"@)))]
    } else if name == "fold"@ {
        seq![sfun(seq![sfun(seq![bvar("state"@), bvar("item"@)], bvar("state"@)), bvar("state"@), slist(bvar("item"@))], bvar("state"@))]
    } else {
        Seq::empty()
    }
}

fn higher_signatures(name: &str) -> (r: Vec<MagType>)
    ensures
        types_view(r@) == higher_types(name@),
{
    if same(name, "map") {
        types1(fun2(fun1(var("item"), var("result")), list(var("item")), list(var("result"))))
    } else if same(name, "group-by") {
        types1(fun2(fun1(var("item"), MagType::String), list(var("item")), map_of(MagType::String, list(var("item")))))
    } else if same(name, "filter") {
        types1(fun2(fun1(var("item"), MagType::Bool), list(var("item")), list(var("item"))))
    } else if same(name, "flat-map") {
        types1(fun2(fun1(var("item"), list(var("result"))), list(var("item")), list(var("result"))))
    } else if same(name, "sort-by") {
        types1(fun2(fun1(var("item"), MagType::String), list(var("item")), list(var("item"))))
    } else if same(name, "indexed-map") {
        types1(fun2(fun2(MagType::Int, var("item"), var("result")), list(var("item")), list(var("result"))))
    } else if same(name, "fold") {
        types1(fun3(fun2(var("state"), var("item"), var("state")), var("state"), list(var("item")), var("state")))
    } else {
        no_types()
    }
}

/// The signatures that every builtin of this name has.
pub open spec fn base_types(name: Seq<char>) -> Seq<SType> {
    if collection_types(name).len() > 0 {
        collection_types(name)
    } else if data_types(name).len() > 0 {
        data_types(name)
    } else if evidence_types(name).len() > 0 {
        evidence_types(name)
    } else {
        higher_types(name)
    }
}

fn base_signatures(name: &str) -> (r: Vec<MagType>)
    ensures
        types_view(r@) == base_types(name@),
{
    let r = collection_signatures(name);
    assert(types_view(r@).len() == r@.len());
    if r.len() > 0 {
        return r;
    }
    let r = data_signatures(name);
    assert(types_view(r@).len() == r@.len());
    if r.len() > 0 {
        return r;
    }
    let r = evidence_signatures(name);
    assert(types_view(r@).len() == r@.len());
    if r.len() > 0 {
        return r;
    }
    higher_signatures(name)
}

/// The signatures of `get` on one record type: one for each field.
pub open spec fn get_types(record: SType, fields: Seq<(Seq<char>, SType)>) -> Seq<SType> {
    Seq::new(fields.len(), |i: int| sfun(seq![record, SType::String], fields[i].1))
}

/// The signatures of `assoc` on one record type: one for each field.
pub open spec fn assoc_types(record: SType, fields: Seq<(Seq<char>, SType)>) -> Seq<SType> {
    Seq::new(fields.len(), |i: int| sfun(seq![record, SType::String, fields[i].1], record))
}

/// The signatures that a builtin has on the parameters of one function type besides those that it
/// always has.
pub open spec fn family_types(name: Seq<char>, params: Seq<SType>) -> Seq<SType> {
    if name == "or"@ && params.len() == 2 && params[0] == params[1] {
        seq![sfun(params, params[0])]
    } else if params.len() == 0 {
        Seq::empty()
    } else {
        match params[0] {
            SType::Record(fields) => if name == "count"@ {
                seq![sfun(seq![params[0]], SType::Int)]
            } else if name == "keys"@ {
                seq![sfun(seq![params[0]], slist(SType::String))]
            } else if name == "get"@ && params.len() == 2 && params[1] == SType::String {
                get_types(params[0], fields)
            } else if name == "assoc"@ && params.len() == 3 && params[1] == SType::String {
                assoc_types(params[0], fields)
            } else {
                Seq::empty()
            },
            _ => Seq::empty(),
        }
    }
}

/// The signatures of a builtin, in view of one function type: `str` takes any parameters, and the
/// builtins on records and `or` have a signature for each type that they are used at.
#[verifier::opaque]
pub open spec fn builtin_types(name: Seq<char>, candidate: Option<SType>) -> Seq<SType> {
    let base = if name == "str"@ {
        match candidate {
            Some(SType::Function(params, _)) => seq![sfun(params, SType::String)],
            _ => Seq::empty(),
        }
    } else {
        base_types(name)
    };
    match candidate {
        Some(SType::Function(params, _)) => base + family_types(name, params),
        _ => base,
    }
}

fn family_signatures(name: &str, params: &Vec<MagType>) -> (r: Vec<MagType>)
    ensures
        types_view(r@) == family_types(name@, types_view(params@)),
{
    assert(types_view(params@).len() == params@.len());
    if same(name, "or") && params.len() == 2 && params[0].equals(&params[1]) {
        return types1(function(clone_types(params), params[0].clone()));
    }
    if params.len() == 0 {
        return no_types();
    }
    let record = &params[0];
    let second_is_text = params.len() > 1 && params[1].equals(&MagType::String);
    match record {
        MagType::Record(fields) => {
            assert(fields_view(fields@).len() == fields@.len());
            if same(name, "count") {
                types1(fun1(record.clone(), MagType::Int))
            } else if same(name, "keys") {
                types1(fun1(record.clone(), list(MagType::String)))
            } else if same(name, "get") && params.len() == 2 && second_is_text {
                let mut r: Vec<MagType> = Vec::new();
                let mut i: usize = 0;
                while i < fields.len()
                    invariant
                        i <= fields.len(),
                        r.len() == i,
                        forall|j: int|
                            0 <= j < i ==> (#[trigger] r@[j])@ == sfun(
                                seq![record@, SType::String],
                                fields@[j].1@,
                            ),
                    decreases fields.len() - i,
                {
                    r.push(fun2(record.clone(), MagType::String, fields[i].1.clone()));
                    i = i + 1;
                }
                assert(types_view(r@) =~= get_types(record@, fields_view(fields@)));
                r
            } else if same(name, "assoc") && params.len() == 3 && second_is_text {
                let mut r: Vec<MagType> = Vec::new();
                let mut i: usize = 0;
                while i < fields.len()
                    invariant
                        i <= fields.len(),
                        r.len() == i,
                        forall|j: int|
                            0 <= j < i ==> (#[trigger] r@[j])@ == sfun(
                                seq![record@, SType::String, fields@[j].1@],
                                record@,
                            ),
                    decreases fields.len() - i,
                {
                    r.push(
                        fun3(record.clone(), MagType::String, fields[i].1.clone(), record.clone()),
                    );
                    i = i + 1;
                }
                assert(types_view(r@) =~= assoc_types(record@, fields_view(fields@)));
                r
            } else {
                no_types()
            }
        },
        _ => no_types(),
    }
}

pub open spec fn opt_ref(t: Option<&MagType>) -> Option<SType> {
    match t {
        Some(t) => Some(t@),
        None => None,
    }
}

pub fn builtin_overload_types(name: &str, candidate: Option<&MagType>) -> (r: Vec<MagType>)
    ensures
        types_view(r@) == builtin_types(name@, opt_ref(candidate)),
{
    proof {
        reveal(builtin_types);
    }
    match candidate {
        Some(MagType::Function(params, _)) => {
            let mut r = if same(name, "str") {
                types1(function(clone_types(params), MagType::String))
            } else {
                base_signatures(name)
            };
            let more = family_signatures(name, params);
            let ghost base = types_view(r@);
            assert(base == if name@ == "str"@ {
                seq![sfun(types_view(params@), SType::String)]
            } else {
                base_types(name@)
            });
            let mut i: usize = 0;
            assert(types_view(more@).take(0) =~= Seq::empty());
            assert(types_view(more@).len() == more@.len());
            while i < more.len()
                invariant
                    i <= more.len(),
                    types_view(more@).len() == more@.len(),
                    types_view(r@) =~= base + types_view(more@).take(i as int),
                decreases more.len() - i,
            {
                let ghost so_far = types_view(r@);
                let next = more[i].clone();
                r.push(next);
                proof {
                    assert(types_view(r@) =~= so_far.push(next@));
                    assert(types_view(more@)[i as int] == more@[i as int]@);
                }
                i = i + 1;
            }
            proof {
                assert(types_view(more@).take(more.len() as int) =~= types_view(more@));
                assert(types_view(r@) =~= base + family_types(name@, types_view(params@)));
            }
            r
        },
        _ => {
            if same(name, "str") {
                no_types()
            } else {
                base_signatures(name)
            }
        },
    }
}

/// Whether a function of this type under this name would collide with the builtin of the name.
#[verifier::opaque]
pub open spec fn collides(env: SEnv, name: Seq<char>, candidate: SType) -> bool {
    exists|i: int|
        0 <= i < builtin_types(name, Some(candidate)).len() && collides_at(
            env,
            candidate,
            #[trigger] builtin_types(name, Some(candidate))[i],
        )
}

pub open spec fn collides_at(env: SEnv, candidate: SType, builtin: SType) -> bool {
    fit_binding(env, candidate, builtin, Map::empty(), internal_vars(builtin)).1 is Ok
}

pub fn collides_with_builtin(env: &Env, name: &str, candidate: &MagType) -> (r: bool)
    ensures
        r == collides(env@, name@, candidate@),
{
    proof {
        reveal(collides);
    }
    let signatures = builtin_overload_types(name, Some(candidate));
    let ghost all = builtin_types(name@, Some(candidate@));
    let mut i: usize = 0;
    while i < signatures.len()
        invariant
            i <= signatures.len(),
            all == builtin_types(name@, Some(candidate@)),
            all == types_view(signatures@),
            all.len() == signatures@.len(),
            forall|j: int| 0 <= j < i ==> !collides_at(env@, candidate@, #[trigger] all[j]),
        decreases signatures.len() - i,
    {
        let bindable = internal_type_variables(&signatures[i]);
        let mut subst = Substitution::new();
        match compatible_with_bindable(env, candidate, &signatures[i], &mut subst, &bindable) {
            Ok(_) => {
                proof {
                    reveal(collides);
                    assert(collides_at(env@, candidate@, all[i as int]));
                }
                return true;
            },
            Err(_) => {},
        }
        i = i + 1;
    }
    false
}

} // verus!
