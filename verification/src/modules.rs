//! The environment of a module: what it starts with, what it exports, and what it imports.

use vstd::prelude::*;

use crate::ast::{
    value_fields_view, values_view, BindingId, FrameId, SDecl, SDeclBody, SValue, TypeDecl,
    TypeDeclBody, Value,
};
use crate::bindings::{Bindings, SBindings};
use crate::builtins::{builtin_list, builtin_names};
use crate::env::{
    collect_ready, keyed, keyed_with_key, name_index, ready_values, with_key, Env, SEnv, SFrame,
    ScopeFrame,
};
use crate::error::{MagError, SError};
use crate::frames::defined;
use crate::compatible::SSubst;
use crate::substitution::{entry_map, Substitution};
use crate::text::{cat2, cat3, clone_names, join, joined, order_names, ordered, same, strings};
use crate::type_rules::unit_result;
use crate::types::{fields_view, MagType, SType};
use crate::values::{equal, values_equal};

verus! {

broadcast use vstd::seq_lib::group_seq_properties;

/// The environment and the table once each of some names stands for a value.
pub open spec fn all_defined(env: SEnv, table: SBindings, items: Seq<(Seq<char>, SValue)>) -> (
    SEnv,
    SBindings,
)
    decreases items.len(),
{
    if items.len() == 0 {
        (env, table)
    } else {
        let (e, t) = defined(env, table, items[0].0, items[0].1);
        all_defined(e, t, items.drop_first())
    }
}

fn define_all(env: &mut Env, table: &mut Bindings, items: Vec<(String, Value)>)
    ensures
        (final(env)@, final(table)@) == all_defined(
            old(env)@,
            old(table)@,
            value_fields_view(items@),
        ),
{
    let ghost all = value_fields_view(items@);
    let ghost whole = all_defined(env@, table@, all);
    let mut i: usize = 0;
    proof {
        assert(all.len() == items@.len());
        assert(all.skip(0) =~= all);
    }
    while i < items.len()
        invariant
            i <= items.len(),
            all == value_fields_view(items@),
            all.len() == items@.len(),
            whole == all_defined(env@, table@, all.skip(i as int)),
        decreases items.len() - i,
    {
        proof {
            assert(all.skip(i as int)[0] == (items@[i as int].0@, items@[i as int].1@));
            assert(all.skip(i as int).drop_first() =~= all.skip(i + 1));
        }
        env.define(table, &items[i].0, items[i].1.clone());
        i = i + 1;
    }
}

/// The builtin types and type constructors and their names.
pub open spec fn base_types() -> Seq<(Seq<char>, SValue)> {
    seq![
        ("Artifact"@, SValue::Type(SType::Artifact)),
        ("JsonValue"@, SValue::Type(SType::JsonValue)),
        ("TypeDescriptor"@, SValue::Type(SType::TypeDescriptor)),
        ("TypeSchema"@, SValue::Type(SType::TypeSchema)),
        ("SemanticTypeId"@, SValue::Type(SType::SemanticTypeId)),
        ("PackedValue"@, SValue::Type(SType::PackedValue)),
        ("Unit"@, SValue::Type(SType::Unit)),
        ("Bool"@, SValue::Type(SType::Bool)),
        ("Int"@, SValue::Type(SType::Int)),
        ("Float"@, SValue::Type(SType::Float)),
        ("String"@, SValue::Type(SType::String)),
        ("List"@, native_type("core.List"@, seq!["T"@])),
        ("Map"@, native_type("core.Map"@, seq!["K"@, "V"@])),
        ("Set"@, native_type("core.Set"@, seq!["T"@])),
    ]
}

/// The declaration of a builtin type constructor.
pub open spec fn native_type(name: Seq<char>, params: Seq<Seq<char>>) -> SValue {
    SValue::TypeDecl(SDecl { name, params, body: SDeclBody::Native })
}

fn make_native_type(name: &str, params: Vec<String>) -> (r: Value)
    ensures
        r@ == native_type(name@, strings(params@)),
{
    Value::TypeDecl(TypeDecl { name: name.to_owned(), params, body: TypeDeclBody::Native })
}

/// What the names of a new environment stand for: each builtin name for the function, then each
/// builtin type's name for the type.
#[verifier::opaque]
pub open spec fn base_definitions() -> Seq<(Seq<char>, SValue)> {
    Seq::new(
        builtin_list().len(),
        |i: int| (builtin_list()[i], SValue::BuiltinFn(builtin_list()[i])),
    ) + base_types()
}

fn make_base_definitions() -> (r: Vec<(String, Value)>)
    ensures
        value_fields_view(r@) == base_definitions(),
{
    proof {
        reveal(base_definitions);
    }
    let names = builtin_names();
    let ghost list = builtin_list();
    let mut r: Vec<(String, Value)> = Vec::new();
    let mut i: usize = 0;
    while i < names.len()
        invariant
            i <= names.len(),
            list == builtin_list(),
            names@.len() == list.len(),
            forall|j: int| 0 <= j < names@.len() ==> (#[trigger] names@[j])@ == list[j],
            r.len() == i,
            forall|j: int|
                0 <= j < i ==> (#[trigger] r@[j]).0@ == list[j] && r@[j].1@ == SValue::BuiltinFn(
                    list[j],
                ),
        decreases names.len() - i,
    {
        r.push((names[i].to_owned(), Value::BuiltinFn(names[i].to_owned())));
        i = i + 1;
    }
    r.push(("Artifact".to_owned(), Value::Type(MagType::Artifact)));
    r.push(("JsonValue".to_owned(), Value::Type(MagType::JsonValue)));
    r.push(("TypeDescriptor".to_owned(), Value::Type(MagType::TypeDescriptor)));
    r.push(("TypeSchema".to_owned(), Value::Type(MagType::TypeSchema)));
    r.push(("SemanticTypeId".to_owned(), Value::Type(MagType::SemanticTypeId)));
    r.push(("PackedValue".to_owned(), Value::Type(MagType::PackedValue)));
    r.push(("Unit".to_owned(), Value::Type(MagType::Unit)));
    r.push(("Bool".to_owned(), Value::Type(MagType::Bool)));
    r.push(("Int".to_owned(), Value::Type(MagType::Int)));
    r.push(("Float".to_owned(), Value::Type(MagType::Float)));
    r.push(("String".to_owned(), Value::Type(MagType::String)));
    let item = vec!["T".to_owned()];
    let pair = vec!["K".to_owned(), "V".to_owned()];
    assert(strings(item@) =~= seq!["T"@]);
    assert(strings(pair@) =~= seq!["K"@, "V"@]);
    r.push(("List".to_owned(), make_native_type("core.List", clone_names(&item))));
    r.push(("Map".to_owned(), make_native_type("core.Map", pair)));
    r.push(("Set".to_owned(), make_native_type("core.Set", item)));
    assert(value_fields_view(r@) =~= base_definitions());
    r
}

/// An environment whose one scope is a new frame with the builtin names, in the arena of another.
#[verifier::opaque]
pub open spec fn fresh(env: SEnv, table: SBindings, module: Seq<char>) -> (SEnv, SBindings) {
    all_defined(
        SEnv { scopes: seq![FrameId(env.next_frame)], module, ..env.with_frame() },
        table,
        base_definitions(),
    )
}

/// An arena without frames.
pub open spec fn empty_env(program: u64) -> SEnv {
    SEnv {
        scopes: Seq::empty(),
        module: Seq::empty(),
        frames: Seq::empty(),
        next_frame: 0,
        program,
        type_bindings: 0,
        roots: Seq::empty(),
        allocations: 0,
        interval: 0,
    }
}

impl Env {
    /// Puts a new frame with the builtin names in force, as the only scope.
    pub(crate) fn start_module(&mut self, table: &mut Bindings, module: &str)
        ensures
            (final(self)@, final(table)@) == fresh(old(self)@, old(table)@, module@),
    {
        proof {
            reveal(fresh);
        }
        let ghost before = self@;
        let id = self.allocate_frame();
        let mut scopes: Vec<FrameId> = Vec::new();
        scopes.push(id);
        self.scopes = scopes;
        self.module = module.to_owned();
        assert(self@ =~= SEnv {
            scopes: seq![FrameId(before.next_frame)],
            module: module@,
            ..before.with_frame()
        });
        define_all(self, table, make_base_definitions());
    }

    /// The environment of the main module.
    pub fn new(table: &mut Bindings) -> (r: Env)
        ensures
            (r@, final(table)@) == fresh(empty_env(0), old(table)@, "main"@),
    {
        Env::of_program(table, 0)
    }

    /// The same for a program of its own, which the handles of its bindings say.
    pub fn of_program(table: &mut Bindings, program: u64) -> (r: Env)
        ensures
            (r@, final(table)@) == fresh(empty_env(program), old(table)@, "main"@),
    {
        let mut env = Env {
            scopes: Vec::new(),
            module: String::new(),
            frames: Vec::new(),
            next_frame: 0,
            program,
            type_bindings: 0,
            roots: Vec::new(),
            allocations: 0,
            interval: 0,
        };
        assert(env@ =~= empty_env(program));
        env.start_module(table, "main");
        env
    }

    pub fn new_with_stdlib(table: &mut Bindings) -> (r: Env)
        ensures
            (r@, final(table)@) == fresh(empty_env(0), old(table)@, "main"@),
    {
        Env::new(table)
    }

    pub fn module(&self) -> (r: &str)
        ensures
            r@ == self@.module,
    {
        &self.module
    }
}

/// Whether one of some values equals another.
pub open spec fn already_among(found: Seq<SValue>, v: SValue) -> bool {
    exists|i: int| 0 <= i < found.len() && values_equal(#[trigger] found[i], v)
}

fn is_already_among(found: &Vec<Value>, v: &Value) -> (r: bool)
    ensures
        r == already_among(values_view(found@), v@),
{
    let ghost all = values_view(found@);
    let mut i: usize = 0;
    assert(all.len() == found@.len());
    while i < found.len()
        invariant
            i <= found.len(),
            all == values_view(found@),
            all.len() == found@.len(),
            forall|j: int| 0 <= j < i ==> !values_equal(#[trigger] all[j], v@),
        decreases found.len() - i,
    {
        assert(all[i as int] == found@[i as int]@);
        if equal(&found[i], v) {
            return true;
        }
        i = i + 1;
    }
    false
}

/// The environment and the table once each name stands for its value, among others; a name that
/// stands for an equal value is left as it is.
pub open spec fn all_offered(env: SEnv, table: SBindings, items: Seq<(Seq<char>, SValue)>) -> (
    SEnv,
    SBindings,
)
    decreases items.len(),
{
    if items.len() == 0 {
        (env, table)
    } else {
        let (name, v) = items[0];
        let (e, t) = if already_among(env.candidates(name), v) {
            (env, table)
        } else {
            defined(env, table, name, v)
        };
        all_offered(e, t, items.drop_first())
    }
}

fn offer_all(env: &mut Env, table: &mut Bindings, items: &Vec<(String, Value)>)
    ensures
        (final(env)@, final(table)@) == all_offered(
            old(env)@,
            old(table)@,
            value_fields_view(items@),
        ),
{
    let ghost all = value_fields_view(items@);
    let ghost whole = all_offered(env@, table@, all);
    let mut i: usize = 0;
    proof {
        assert(all.len() == items@.len());
        assert(all.skip(0) =~= all);
    }
    while i < items.len()
        invariant
            i <= items.len(),
            all == value_fields_view(items@),
            all.len() == items@.len(),
            whole == all_offered(env@, table@, all.skip(i as int)),
        decreases items.len() - i,
    {
        proof {
            assert(all.skip(i as int)[0] == (items@[i as int].0@, items@[i as int].1@));
            assert(all.skip(i as int).drop_first() =~= all.skip(i + 1));
        }
        let found = env.lookup_candidates(&items[i].0);
        if !is_already_among(&found, &items[i].1) {
            env.define(table, &items[i].0, items[i].1.clone());
        }
        i = i + 1;
    }
}

/// Those of some values that are type declarations, each with a name.
pub open spec fn named_declarations(name: Seq<char>, values: Seq<SValue>) -> Seq<
    (Seq<char>, SValue),
>
    decreases values.len(),
{
    if values.len() == 0 {
        Seq::empty()
    } else {
        let rest = named_declarations(name, values.drop_last());
        if values.last() is TypeDecl {
            rest.push((name, values.last()))
        } else {
            rest
        }
    }
}

/// The type declarations under the first `n` names of a frame.
pub open spec fn frame_declarations(f: SFrame, n: nat) -> Seq<(Seq<char>, SValue)>
    decreases n,
{
    if n == 0 {
        Seq::empty()
    } else {
        frame_declarations(f, (n - 1) as nat) + named_declarations(
            f.names[n - 1].0,
            ready_values(f, f.names[n - 1].1),
        )
    }
}

/// The type declarations in the outermost `n` scopes, the outermost first.
pub open spec fn declarations_within(env: SEnv, n: nat) -> Seq<(Seq<char>, SValue)>
    decreases n,
{
    if n == 0 {
        Seq::empty()
    } else {
        declarations_within(env, (n - 1) as nat) + match env.frame(env.scopes[n - 1]) {
            Some(f) => frame_declarations(f, f.names.len()),
            None => Seq::empty(),
        }
    }
}

/// The type declarations of an environment.
#[verifier::opaque]
pub open spec fn declarations(env: SEnv) -> Seq<(Seq<char>, SValue)> {
    declarations_within(env, env.scopes.len())
}

fn add_named_declarations(name: &str, values: &Vec<Value>, out: &mut Vec<(String, Value)>)
    ensures
        value_fields_view(final(out)@) == value_fields_view(old(out)@) + named_declarations(
            name@,
            values_view(values@),
        ),
{
    let ghost all = values_view(values@);
    let ghost before = value_fields_view(out@);
    let mut i: usize = 0;
    proof {
        assert(all.len() == values@.len());
        assert(all.take(0) =~= Seq::empty());
        assert(before + named_declarations(name@, all.take(0)) =~= before);
    }
    while i < values.len()
        invariant
            i <= values.len(),
            all == values_view(values@),
            all.len() == values@.len(),
            value_fields_view(out@) == before + named_declarations(name@, all.take(i as int)),
        decreases values.len() - i,
    {
        let ghost so_far = value_fields_view(out@);
        proof {
            assert(all.take(i + 1).drop_last() =~= all.take(i as int));
            assert(all.take(i + 1).last() == values@[i as int]@);
        }
        match &values[i] {
            Value::TypeDecl(_) => {
                let v = values[i].clone();
                out.push((name.to_owned(), v));
                assert(value_fields_view(out@) =~= so_far.push((name@, v@)));
            },
            _ => {},
        }
        i = i + 1;
    }
    assert(all.take(values.len() as int) =~= all);
}

fn add_frame_declarations(frame: &ScopeFrame, out: &mut Vec<(String, Value)>)
    ensures
        value_fields_view(final(out)@) == value_fields_view(old(out)@) + frame_declarations(
            frame@,
            frame@.names.len(),
        ),
{
    let ghost before = value_fields_view(out@);
    let mut i: usize = 0;
    assert(before + frame_declarations(frame@, 0) =~= before);
    while i < frame.names.len()
        invariant
            i <= frame.names.len(),
            value_fields_view(out@) == before + frame_declarations(frame@, i as nat),
        decreases frame.names.len() - i,
    {
        let ghost so_far = value_fields_view(out@);
        assert(frame@.names[i as int] == (frame.names@[i as int].0@, frame.names@[i as int].1@));
        let mut values: Vec<Value> = Vec::new();
        assert(values_view(values@) =~= Seq::empty());
        collect_ready(frame, &frame.names[i].1, &mut values);
        assert(values_view(values@) =~= ready_values(frame@, frame.names@[i as int].1@));
        add_named_declarations(&frame.names[i].0, &values, out);
        i = i + 1;
        assert(value_fields_view(out@) =~= before + frame_declarations(frame@, i as nat));
    }
}

/// Whether a name has a dot.
pub open spec fn dotted(name: Seq<char>) -> bool {
    exists|i: int| 0 <= i < name.len() && #[trigger] name[i] == '.'
}

pub fn is_dotted(name: &str) -> (r: bool)
    ensures
        r == dotted(name@),
{
    let n: usize = name.unicode_len();
    let mut i: usize = 0;
    while i < n
        invariant
            i <= n,
            n == name@.len(),
            forall|j: int| 0 <= j < i ==> name@[j] != '.',
        decreases n - i,
    {
        if name.get_char(i) == '.' {
            return true;
        }
        i = i + 1;
    }
    false
}

/// Whether a value is one that every module starts with.
pub open spec fn predefined(v: SValue) -> bool {
    match v {
        SValue::BuiltinFn(_) => true,
        SValue::Type(_) => true,
        SValue::TypeDecl(d) => d.body is Native,
        _ => false,
    }
}

fn is_predefined(v: &Value) -> (r: bool)
    ensures
        r == predefined(v@),
{
    match v {
        Value::BuiltinFn(_) => true,
        Value::Type(_) => true,
        Value::TypeDecl(d) => match d.body {
            TypeDeclBody::Native => true,
            _ => false,
        },
        _ => false,
    }
}

/// Those of some values that a module exports, each with a name.
pub open spec fn named_exports(name: Seq<char>, values: Seq<SValue>) -> Seq<(Seq<char>, SValue)>
    decreases values.len(),
{
    if values.len() == 0 {
        Seq::empty()
    } else {
        let rest = named_exports(name, values.drop_last());
        if predefined(values.last()) {
            rest
        } else {
            rest.push((name, values.last()))
        }
    }
}

/// What a frame exports under some names.
pub open spec fn exports_under(f: SFrame, names: Seq<Seq<char>>) -> Seq<(Seq<char>, SValue)>
    decreases names.len(),
{
    if names.len() == 0 {
        Seq::empty()
    } else {
        let name = names.last();
        exports_under(f, names.drop_last()) + if dotted(name) {
            Seq::empty()
        } else {
            match keyed(f.names, name, 0) {
                Some(ids) => named_exports(name, ready_values(f, ids)),
                None => Seq::empty(),
            }
        }
    }
}

pub open spec fn frame_names(f: SFrame) -> Seq<Seq<char>> {
    Seq::new(f.names.len(), |i: int| f.names[i].0)
}

/// What a module defines: the values of its outermost scope that it did not start with, in the
/// order of their names. Names with a dot are imports.
#[verifier::opaque]
pub open spec fn exports(env: SEnv) -> Seq<(Seq<char>, SValue)> {
    if env.scopes.len() == 0 {
        Seq::empty()
    } else {
        match env.frame(env.scopes[0]) {
            Some(f) => exports_under(f, ordered(frame_names(f).to_set())),
            None => Seq::empty(),
        }
    }
}

fn add_exports(name: &str, values: &Vec<Value>, out: &mut Vec<(String, Value)>)
    ensures
        value_fields_view(final(out)@) == value_fields_view(old(out)@) + named_exports(
            name@,
            values_view(values@),
        ),
{
    let ghost all = values_view(values@);
    let ghost before = value_fields_view(out@);
    let mut i: usize = 0;
    proof {
        assert(all.len() == values@.len());
        assert(all.take(0) =~= Seq::empty());
        assert(before + named_exports(name@, all.take(0)) =~= before);
    }
    while i < values.len()
        invariant
            i <= values.len(),
            all == values_view(values@),
            all.len() == values@.len(),
            value_fields_view(out@) == before + named_exports(name@, all.take(i as int)),
        decreases values.len() - i,
    {
        let ghost so_far = value_fields_view(out@);
        proof {
            assert(all.take(i + 1).drop_last() =~= all.take(i as int));
            assert(all.take(i + 1).last() == values@[i as int]@);
        }
        if !is_predefined(&values[i]) {
            let v = values[i].clone();
            out.push((name.to_owned(), v));
            assert(value_fields_view(out@) =~= so_far.push((name@, v@)));
        }
        i = i + 1;
    }
    assert(all.take(values.len() as int) =~= all);
}

/// The names under which another module sees definitions.
pub open spec fn qualified_as(module: Seq<char>, items: Seq<(Seq<char>, SValue)>) -> Seq<
    (Seq<char>, SValue),
> {
    Seq::new(
        items.len(),
        |i: int|
            (
                if dotted(items[i].0) {
                    items[i].0
                } else {
                    module + "."@ + items[i].0
                },
                items[i].1,
            ),
    )
}

fn qualify_all(module: &str, items: &Vec<(String, Value)>) -> (r: Vec<(String, Value)>)
    ensures
        value_fields_view(r@) == qualified_as(module@, value_fields_view(items@)),
{
    let ghost all = value_fields_view(items@);
    let mut r: Vec<(String, Value)> = Vec::new();
    let mut i: usize = 0;
    assert(all.len() == items@.len());
    while i < items.len()
        invariant
            i <= items.len(),
            r.len() == i,
            all == value_fields_view(items@),
            all.len() == items@.len(),
            forall|j: int|
                0 <= j < i ==> ((#[trigger] r@[j]).0@, r@[j].1@) == qualified_as(module@, all)[j],
        decreases items.len() - i,
    {
        assert(all[i as int] == (items@[i as int].0@, items@[i as int].1@));
        let name = if is_dotted(&items[i].0) {
            items[i].0.clone()
        } else {
            cat3(module, ".", &items[i].0)
        };
        r.push((name, items[i].1.clone()));
        i = i + 1;
    }
    assert(value_fields_view(r@) =~= qualified_as(module@, all));
    r
}

/// The names of a substitution, each with its type, in the order of the names.
pub open spec fn bound_types(subst: SSubst) -> Seq<(Seq<char>, SValue)> {
    let names = ordered(subst.dom());
    Seq::new(names.len(), |i: int| (names[i], SValue::Type(subst[names[i]])))
}

proof fn entry_names(items: Seq<(Seq<char>, SType)>)
    ensures
        entry_map(items).dom() == Seq::new(items.len(), |i: int| items[i].0).to_set(),
    decreases items.len(),
{
    let names = Seq::new(items.len(), |i: int| items[i].0);
    if items.len() > 0 {
        entry_names(items.drop_last());
        let rest = Seq::new(items.drop_last().len(), |i: int| items.drop_last()[i].0);
        assert(names.drop_last() =~= rest);
        assert(names =~= rest.push(items.last().0));
        assert forall|n: Seq<char>| entry_map(items).dom().contains(n)
            == names.to_set().contains(n) by {
            if names.contains(n) {
                let k = choose|k: int| 0 <= k < names.len() && names[k] == n;
                if k < rest.len() {
                    assert(rest[k] == n);
                }
            }
            if rest.contains(n) {
                let k = choose|k: int| 0 <= k < rest.len() && rest[k] == n;
                assert(names[k] == n);
            }
            assert(names[names.len() - 1] == items.last().0);
        }
        assert(entry_map(items).dom() =~= names.to_set());
    } else {
        assert(entry_map(items).dom() =~= names.to_set());
    }
}

fn list_bound_types(subst: &Substitution) -> (r: Vec<(String, Value)>)
    ensures
        value_fields_view(r@) == bound_types(subst@),
{
    let mut names: Vec<String> = Vec::new();
    let ghost all = fields_view(subst.entries@);
    let mut i: usize = 0;
    assert(all.len() == subst.entries@.len());
    while i < subst.entries.len()
        invariant
            i <= subst.entries.len(),
            all == fields_view(subst.entries@),
            all.len() == subst.entries@.len(),
            names.len() == i,
            forall|j: int| 0 <= j < i ==> (#[trigger] names@[j])@ == all[j].0,
        decreases subst.entries.len() - i,
    {
        assert(all[i as int] == (subst.entries@[i as int].0@, subst.entries@[i as int].1@));
        names.push(subst.entries[i].0.clone());
        i = i + 1;
    }
    proof {
        entry_names(all);
        assert(strings(names@) =~= Seq::new(all.len(), |i: int| all[i].0));
    }
    let sorted = order_names(&names);
    let ghost list = strings(sorted@);
    assert(list == ordered(subst@.dom()));
    let mut r: Vec<(String, Value)> = Vec::new();
    let mut k: usize = 0;
    while k < sorted.len()
        invariant
            k <= sorted.len(),
            list == strings(sorted@),
            list.to_set() == subst@.dom(),
            r.len() == k,
            forall|j: int|
                0 <= j < k ==> (#[trigger] r@[j]).0@ == list[j] && r@[j].1@ == SValue::Type(
                    subst@[list[j]],
                ),
        decreases sorted.len() - k,
    {
        assert(list[k as int] == sorted@[k as int]@);
        assert(list.to_set().contains(list[k as int]));
        match subst.get(&sorted[k]) {
            Some(t) => {
                r.push((sorted[k].clone(), Value::Type(t.clone())));
            },
            None => {
                r.push((sorted[k].clone(), Value::Unit));
            },
        }
        k = k + 1;
    }
    assert(value_fields_view(r@) =~= bound_types(subst@));
    r
}

impl Env {
    /// The type declarations in force, each with the name that it is bound to.
    pub fn type_declarations(&self) -> (r: Vec<(String, Value)>)
        ensures
            value_fields_view(r@) == declarations(self@),
    {
        proof {
            reveal(declarations);
        }
        let mut out: Vec<(String, Value)> = Vec::new();
        let mut i: usize = 0;
        assert(value_fields_view(out@) =~= Seq::empty());
        while i < self.scopes.len()
            invariant
                i <= self.scopes.len(),
                value_fields_view(out@) == declarations_within(self@, i as nat),
            decreases self.scopes.len() - i,
        {
            let ghost so_far = value_fields_view(out@);
            match self.find_frame(self.scopes[i]) {
                Some(f) => {
                    add_frame_declarations(f, &mut out);
                },
                None => {},
            }
            i = i + 1;
            assert(value_fields_view(out@) =~= declarations_within(self@, i as nat));
        }
        out
    }

    /// Takes over type declarations: they are the namespace of types of a whole compilation.
    pub fn define_type_declarations(
        &mut self,
        table: &mut Bindings,
        items: &Vec<(String, Value)>,
    )
        ensures
            (final(self)@, final(table)@) == all_offered(
                old(self)@,
                old(table)@,
                value_fields_view(items@),
            ),
    {
        offer_all(self, table, items);
    }

    /// Binds the names of a substitution to its types.
    pub fn define_types(&mut self, table: &mut Bindings, subst: &Substitution)
        ensures
            (final(self)@, final(table)@) == all_defined(
                old(self)@,
                old(table)@,
                bound_types(subst@),
            ),
    {
        let items = list_bound_types(subst);
        define_all(self, table, items);
    }

    pub fn user_defs(&self) -> (r: Vec<(String, Value)>)
        ensures
            value_fields_view(r@) == exports(self@),
    {
        proof {
            reveal(exports);
        }
        let mut out: Vec<(String, Value)> = Vec::new();
        assert(value_fields_view(out@) =~= Seq::empty());
        if self.scopes.len() == 0 {
            return out;
        }
        let frame = match self.find_frame(self.scopes[0]) {
            Some(f) => f,
            None => {
                return out;
            },
        };
        let mut names: Vec<String> = Vec::new();
        let mut i: usize = 0;
        while i < frame.names.len()
            invariant
                i <= frame.names.len(),
                names.len() == i,
                forall|j: int| 0 <= j < i ==> (#[trigger] names@[j])@ == frame@.names[j].0,
            decreases frame.names.len() - i,
        {
            names.push(frame.names[i].0.clone());
            i = i + 1;
        }
        assert(strings(names@) =~= frame_names(frame@));
        let sorted = order_names(&names);
        let ghost list = strings(sorted@);
        let mut k: usize = 0;
        assert(list.take(0) =~= Seq::empty());
        while k < sorted.len()
            invariant
                k <= sorted.len(),
                list == strings(sorted@),
                value_fields_view(out@) == exports_under(frame@, list.take(k as int)),
            decreases sorted.len() - k,
        {
            let ghost so_far = value_fields_view(out@);
            proof {
                assert(list.take(k + 1).drop_last() =~= list.take(k as int));
                assert(list.take(k + 1).last() == sorted@[k as int]@);
            }
            if !is_dotted(&sorted[k]) {
                match name_index(&frame.names, &sorted[k]) {
                    Some(at) => {
                        let mut values: Vec<Value> = Vec::new();
                        assert(values_view(values@) =~= Seq::empty());
                        collect_ready(frame, &frame.names[at].1, &mut values);
                        assert(values_view(values@) =~= ready_values(
                            frame@,
                            frame.names@[at as int].1@,
                        ));
                        add_exports(&sorted[k], &values, &mut out);
                    },
                    None => {},
                }
            }
            k = k + 1;
            assert(value_fields_view(out@) =~= exports_under(frame@, list.take(k as int)));
        }
        assert(list.take(sorted.len() as int) =~= list);
        out
    }

    /// Makes the definitions of another module visible under qualified names.
    pub fn install_module(
        &mut self,
        table: &mut Bindings,
        name: &str,
        defs: &Vec<(String, Value)>,
    )
        ensures
            (final(self)@, final(table)@) == all_offered(
                old(self)@,
                old(table)@,
                qualified_as(name@, value_fields_view(defs@)),
            ),
    {
        let items = qualify_all(name, defs);
        offer_all(self, table, &items);
    }
}

/// The modules of a compilation: those that are loaded, with what they define, and those that are
/// being loaded, the outermost first.
pub struct Modules {
    pub loaded: Vec<(String, Vec<(String, Value)>)>,
    pub loading: Vec<String>,
}

/// The model of [`Modules`].
#[verifier::ext_equal]
pub struct SModules {
    pub loaded: Seq<(Seq<char>, Seq<(Seq<char>, SValue)>)>,
    pub loading: Seq<Seq<char>>,
}

pub open spec fn loaded_view(items: Seq<(String, Vec<(String, Value)>)>) -> Seq<
    (Seq<char>, Seq<(Seq<char>, SValue)>),
> {
    Seq::new(items.len(), |i: int| (items[i].0@, value_fields_view(items[i].1@)))
}

impl View for Modules {
    type V = SModules;

    open spec fn view(&self) -> SModules {
        SModules { loaded: loaded_view(self.loaded@), loading: strings(self.loading@) }
    }
}

/// The place of a name from `i` on.
pub open spec fn name_at(names: Seq<Seq<char>>, name: Seq<char>, i: nat) -> Option<nat>
    decreases names.len() - i,
{
    if i >= names.len() {
        None
    } else if names[i as int] == name {
        Some(i)
    } else {
        name_at(names, name, i + 1)
    }
}

fn find_name(names: &Vec<String>, name: &str) -> (r: Option<usize>)
    ensures
        match r {
            Some(i) => i < names@.len() && name_at(strings(names@), name@, 0) == Some(i as nat),
            None => name_at(strings(names@), name@, 0) is None,
        },
{
    let ghost all = strings(names@);
    let mut i: usize = 0;
    while i < names.len()
        invariant
            i <= names.len(),
            all == strings(names@),
            name_at(all, name@, 0) == name_at(all, name@, i as nat),
        decreases names.len() - i,
    {
        assert(all[i as int] == names@[i as int]@);
        if same(&names[i], name) {
            return Some(i);
        }
        i = i + 1;
    }
    None
}

impl SModules {
    pub open spec fn cached(self, name: Seq<char>) -> Option<Seq<(Seq<char>, SValue)>> {
        keyed(self.loaded, name, 0)
    }

    /// The modules once one more is being loaded, or the circle that this would close.
    #[verifier::opaque]
    pub open spec fn begun(self, name: Seq<char>) -> Result<SModules, SError> {
        match name_at(self.loading, name, 0) {
            Some(at) => Err(
                SError::Eval(
                    "circular require: "@ + joined(
                        self.loading.skip(at as int).push(name),
                        " -> "@,
                    ),
                ),
            ),
            None => Ok(SModules { loading: self.loading.push(name), ..self }),
        }
    }

    /// The modules once the one that is being loaded last is loaded.
    pub open spec fn finished(self, name: Seq<char>, defs: Seq<(Seq<char>, SValue)>) -> SModules {
        SModules {
            loaded: with_key(self.loaded, name, defs, 0),
            loading: if self.loading.len() == 0 {
                self.loading
            } else {
                self.loading.drop_last()
            },
        }
    }
}

pub fn clone_definitions(items: &Vec<(String, Value)>) -> (r: Vec<(String, Value)>)
    ensures
        value_fields_view(r@) == value_fields_view(items@),
{
    let ghost all = value_fields_view(items@);
    let mut r: Vec<(String, Value)> = Vec::new();
    let mut i: usize = 0;
    assert(all.len() == items@.len());
    while i < items.len()
        invariant
            i <= items.len(),
            r.len() == i,
            all == value_fields_view(items@),
            all.len() == items@.len(),
            forall|j: int| 0 <= j < i ==> ((#[trigger] r@[j]).0@, r@[j].1@) == all[j],
        decreases items.len() - i,
    {
        assert(all[i as int] == (items@[i as int].0@, items@[i as int].1@));
        r.push((items[i].0.clone(), items[i].1.clone()));
        i = i + 1;
    }
    assert(value_fields_view(r@) =~= all);
    r
}

impl Modules {
    pub fn new() -> (r: Modules)
        ensures
            r@ == (SModules { loaded: Seq::empty(), loading: Seq::empty() }),
    {
        let r = Modules { loaded: Vec::new(), loading: Vec::new() };
        assert(r@ =~= SModules { loaded: Seq::empty(), loading: Seq::empty() });
        r
    }

    fn find_loaded(&self, name: &str) -> (r: Option<usize>)
        ensures
            match r {
                Some(i) => {
                    &&& i < self.loaded@.len()
                    &&& self@.cached(name@) == Some(value_fields_view(self.loaded@[i as int].1@))
                    &&& forall|d: Seq<(Seq<char>, SValue)>|
                        with_key(self@.loaded, name@, d, 0) == self@.loaded.update(
                            i as int,
                            (name@, d),
                        )
                },
                None => {
                    &&& self@.cached(name@) is None
                    &&& forall|d: Seq<(Seq<char>, SValue)>|
                        with_key(self@.loaded, name@, d, 0) == self@.loaded.push(
                            (name@, d),
                        )
                },
            },
    {
        let ghost all = self@.loaded;
        let mut i: usize = 0;
        while i < self.loaded.len()
            invariant
                i <= self.loaded.len(),
                all == self@.loaded,
                keyed(all, name@, 0) == keyed(all, name@, i as nat),
                forall|d: Seq<(Seq<char>, SValue)>|
                    with_key(all, name@, d, 0) == with_key(all, name@, d, i as nat),
            decreases self.loaded.len() - i,
        {
            assert(all[i as int] == (
                self.loaded@[i as int].0@,
                value_fields_view(self.loaded@[i as int].1@),
            ));
            if same(&self.loaded[i].0, name) {
                return Some(i);
            }
            i = i + 1;
        }
        None
    }

    /// The modules that are loaded, each with what it defines.
    pub fn loaded_modules(&self) -> (r: Vec<(String, Vec<(String, Value)>)>)
        ensures
            loaded_view(r@) == self@.loaded,
    {
        let mut r: Vec<(String, Vec<(String, Value)>)> = Vec::new();
        let mut i: usize = 0;
        while i < self.loaded.len()
            invariant
                i <= self.loaded.len(),
                r@.len() == i,
                forall|j: int|
                    0 <= j < i ==> (#[trigger] r@[j]).0@ == self.loaded@[j].0@
                        && value_fields_view(r@[j].1@) == value_fields_view(self.loaded@[j].1@),
            decreases self.loaded.len() - i,
        {
            r.push((self.loaded[i].0.clone(), clone_definitions(&self.loaded[i].1)));
            i = i + 1;
        }
        assert(loaded_view(r@) =~= self@.loaded);
        r
    }

    pub fn module_cached(&self, name: &str) -> (r: Option<Vec<(String, Value)>>)
        ensures
            match r {
                Some(d) => self@.cached(name@) == Some(value_fields_view(d@)),
                None => self@.cached(name@) is None,
            },
    {
        match self.find_loaded(name) {
            Some(i) => Some(clone_definitions(&self.loaded[i].1)),
            None => None,
        }
    }

    pub fn begin_module(&mut self, name: &str) -> (r: Result<(), MagError>)
        ensures
            match old(self)@.begun(name@) {
                Ok(m) => r is Ok && final(self)@ == m,
                Err(e) => unit_result(r) == Err::<(), SError>(e) && final(self)@ == old(self)@,
            },
    {
        proof {
            reveal(SModules::begun);
        }
        let ghost loading = self@.loading;
        match find_name(&self.loading, name) {
            Some(at) => {
                let mut cycle: Vec<String> = Vec::new();
                let mut i: usize = at;
                while i < self.loading.len()
                    invariant
                        at <= i <= self.loading.len(),
                        loading == strings(self.loading@),
                        cycle.len() == i - at,
                        forall|j: int| 0 <= j < i - at ==> (#[trigger] cycle@[j])@ == loading[j + at],
                    decreases self.loading.len() - i,
                {
                    assert(loading[i as int] == self.loading@[i as int]@);
                    cycle.push(self.loading[i].clone());
                    i = i + 1;
                }
                cycle.push(name.to_owned());
                assert(strings(cycle@) =~= loading.skip(at as int).push(name@));
                Err(MagError::Eval(cat2("circular require: ", &join(&cycle, " -> "))))
            },
            None => {
                self.loading.push(name.to_owned());
                assert(self@.loading =~= loading.push(name@));
                assert(self@ =~= old(self)@.begun(name@)->Ok_0);
                Ok(())
            },
        }
    }

    pub fn finish_module(&mut self, name: &str, defs: Vec<(String, Value)>)
        ensures
            final(self)@ == old(self)@.finished(name@, value_fields_view(defs@)),
    {
        let ghost before = self@;
        let ghost list = value_fields_view(defs@);
        let at = self.find_loaded(name);
        if self.loading.len() > 0 {
            self.loading.pop();
            assert(self@.loading =~= before.loading.drop_last());
        }
        match at {
            Some(i) => {
                self.loaded.set(i, (name.to_owned(), defs));
                assert(self@.loaded =~= before.loaded.update(i as int, (name@, list)));
            },
            None => {
                self.loaded.push((name.to_owned(), defs));
                assert(self@.loaded =~= before.loaded.push((name@, list)));
            },
        }
        assert(self@ =~= before.finished(name@, list));
    }
}

/// A module that is loaded stands for what it defined.
pub proof fn loaded_module_is_cached(
    modules: SModules,
    name: Seq<char>,
    defs: Seq<(Seq<char>, SValue)>,
    other: Seq<char>,
)
    ensures
        modules.finished(name, defs).cached(other) == if other == name {
            Some(defs)
        } else {
            modules.cached(other)
        },
{
    keyed_with_key(modules.loaded, name, defs, other, 0);
}

} // verus!
