//! Programs: their declarations, the modules that they require, and what they come to.

use std::sync::Arc;
use vstd::prelude::*;

use crate::ast::{
    decl_constructors, values_view, ConstructorDecl, ConstructorDeclarationId, SConstructor,
    SConstructorId, SDecl, SDeclBody, SValue, TypeDecl, TypeDeclBody, Value,
};
use crate::authored::{
    authored_constructors, authored_fields, forms_view, items_view, AuthoringError, BlockItem,
    ConstructorDeclaration, Form, ImportExposure, Module, Require, SAuthoringError, SAuthoredType,
    SDeclarationBody, SExposure, SForm, SItem, STypeDeclaration, TypeDeclaration,
    TypeDeclarationBody,
};
use crate::authored::authoring_failure;
use crate::bindings::{Bindings, SBindings};
use crate::callbacks::{Applier, SEval};
use crate::calls::{called, check_call};
use crate::compile::{block_made, block_result, compile_block};
use crate::env::{keyed, value_result, Env, SEnv};
use crate::error::{MagError, SError};
use crate::eval::{
    applied, apply_with_signature, at_level, block_rule, eval_checked_block, evaluator, left,
    same_level, NESTED_OPERATIONS,
};
use crate::files::{Files, SFiles};
use crate::frames::defined;
use crate::fuel::{ensure, install, release, Budget};
use crate::json::{Json, SJson};
use crate::limits::CompilerLimits;
use crate::modules::{
    all_offered, clone_definitions, exports, fresh, qualified_as, SModules,
};
use crate::operations::eval_error;
use crate::resolve::type_error;
use crate::substitution::NameSet;
use crate::text::{cat2, cat3, clone_names, same, strings};
use crate::type_rules::{denoted, denoted_fields, resolve_type, resolve_type_fields, unit_result};
use crate::types::{fields_view, MagType, SType};
use crate::world::{new_world, swept, SWanted, SWorld, Wanted, World};

verus! {

broadcast use vstd::seq_lib::group_seq_properties;

/// A form that is not part of a program's block.
#[derive(Debug)]
pub enum Declaration {
    Require(Require),
    Type(TypeDeclaration),
    Invalid(AuthoringError),
}

/// A program: its declarations, and the items of its block.
#[derive(Debug)]
pub struct Program {
    pub declarations: Vec<Declaration>,
    pub items: Vec<BlockItem>,
}

/// The model of a [`Program`].
#[verifier::ext_equal]
pub struct SProgram {
    pub declarations: Seq<SForm>,
    pub items: Seq<SItem>,
}

impl View for Declaration {
    type V = SForm;

    open spec fn view(&self) -> SForm {
        match self {
            Declaration::Require(r) => SForm::Require(r.module@, r.exposure@),
            Declaration::Type(t) => SForm::Type(t@),
            Declaration::Invalid(e) => SForm::Invalid(e@),
        }
    }
}

pub open spec fn declarations_view(items: Seq<Declaration>) -> Seq<SForm> {
    Seq::new(items.len(), |i: int| items[i]@)
}

impl View for Program {
    type V = SProgram;

    open spec fn view(&self) -> SProgram {
        SProgram {
            declarations: declarations_view(self.declarations@),
            items: items_view(self.items@),
        }
    }
}

pub open spec fn declaration_forms(forms: Seq<SForm>) -> Seq<SForm>
    decreases forms.len(),
{
    if forms.len() == 0 {
        Seq::empty()
    } else if forms[0] is Block {
        declaration_forms(forms.drop_first())
    } else {
        seq![forms[0]] + declaration_forms(forms.drop_first())
    }
}

pub open spec fn block_forms(forms: Seq<SForm>) -> Seq<SItem>
    decreases forms.len(),
{
    if forms.len() == 0 {
        Seq::empty()
    } else {
        match forms[0] {
            SForm::Block(item) => seq![item] + block_forms(forms.drop_first()),
            _ => block_forms(forms.drop_first()),
        }
    }
}

/// A module as a program: its declarations and its block, each in the module's order.
pub open spec fn programmed(forms: Seq<SForm>) -> SProgram {
    SProgram { declarations: declaration_forms(forms), items: block_forms(forms) }
}

fn reverse_declarations(given: Vec<Declaration>) -> (r: Vec<Declaration>)
    ensures
        declarations_view(r@) == declarations_view(given@).reverse(),
{
    let ghost all = declarations_view(given@);
    let mut rest = given;
    let mut r: Vec<Declaration> = Vec::new();
    assert(all.take(rest@.len() as int) =~= all);
    while rest.len() > 0
        invariant
            rest@.len() <= all.len(),
            declarations_view(rest@) == all.take(rest@.len() as int),
            declarations_view(r@) == all.skip(rest@.len() as int).reverse(),
        decreases rest.len(),
    {
        let ghost n = rest@.len();
        let ghost before = declarations_view(r@);
        match rest.pop() {
            Some(d) => {
                assert(d@ == all[n - 1]) by {
                    assert(all.take(n as int)[n - 1] == all[n - 1]);
                }
                r.push(d);
                assert(declarations_view(r@) =~= before.push(d@));
                assert(all.skip(n - 1).reverse() =~= before.push(all[n - 1]));
                assert(declarations_view(rest@) =~= all.take(n - 1));
            },
            None => {},
        }
    }
    assert(all.skip(0) =~= all);
    r
}

fn reverse_items(given: Vec<BlockItem>) -> (r: Vec<BlockItem>)
    ensures
        items_view(r@) == items_view(given@).reverse(),
{
    let ghost all = items_view(given@);
    let mut rest = given;
    let mut r: Vec<BlockItem> = Vec::new();
    proof {
        assert(all.len() == rest@.len());
        assert(all.take(rest@.len() as int) =~= all);
        assert(items_view(r@) =~= Seq::empty());
        assert(all.skip(rest@.len() as int).reverse() =~= Seq::empty());
    }
    while rest.len() > 0
        invariant
            rest@.len() <= all.len(),
            items_view(rest@) == all.take(rest@.len() as int),
            items_view(r@) == all.skip(rest@.len() as int).reverse(),
        decreases rest.len(),
    {
        let ghost n = rest@.len();
        let ghost before = items_view(r@);
        let ghost whole = rest@;
        match rest.pop() {
            Some(d) => {
                assert(d@ == all[n - 1]) by {
                    assert(items_view(whole)[n - 1] == whole[n - 1]@);
                    assert(all.take(n as int)[n - 1] == all[n - 1]);
                }
                r.push(d);
                assert(items_view(r@) =~= before.push(d@));
                assert(all.skip(n - 1).reverse() =~= before.push(all[n - 1]));
                assert(items_view(rest@) =~= all.take(n - 1)) by {
                    assert(items_view(rest@).len() == rest@.len());
                    assert forall|k: int| 0 <= k < rest@.len() implies items_view(rest@)[k]
                        == all.take(n - 1)[k] by {
                        assert(items_view(whole)[k] == whole[k]@);
                    }
                }
            },
            None => {},
        }
    }
    assert(all.skip(0) =~= all);
    r
}

proof fn forms_last(forms: Seq<SForm>)
    requires
        forms.len() > 0,
    ensures
        declaration_forms(forms) == if forms.last() is Block {
            declaration_forms(forms.drop_last())
        } else {
            declaration_forms(forms.drop_last()).push(forms.last())
        },
        block_forms(forms) == match forms.last() {
            SForm::Block(item) => block_forms(forms.drop_last()).push(item),
            _ => block_forms(forms.drop_last()),
        },
    decreases forms.len(),
{
    if forms.len() == 1 {
        assert(forms.drop_first() =~= Seq::empty());
        assert(forms.drop_last() =~= Seq::empty());
        assert(declaration_forms(Seq::empty()) =~= Seq::empty());
        assert(block_forms(Seq::empty()) =~= Seq::empty());
        assert(seq![forms[0]] + declaration_forms(forms.drop_first()) =~= seq![forms[0]]);
    } else {
        let rest = forms.drop_first();
        forms_last(rest);
        assert(rest.drop_last() =~= forms.drop_last().drop_first());
        assert(rest.last() == forms.last());
        assert(forms.drop_last()[0] == forms[0]);
        assert(declaration_forms(forms) =~= if forms.last() is Block {
            declaration_forms(forms.drop_last())
        } else {
            declaration_forms(forms.drop_last()).push(forms.last())
        });
        assert(block_forms(forms) =~= match forms.last() {
            SForm::Block(item) => block_forms(forms.drop_last()).push(item),
            _ => block_forms(forms.drop_last()),
        });
    }
}

/// Parts a module into its declarations and its block.
pub fn make_program(module: Module) -> (r: Program)
    ensures
        r@ == programmed(forms_view(module.forms@)),
{
    let ghost all = forms_view(module.forms@);
    let mut rest = module.forms;
    let mut declarations: Vec<Declaration> = Vec::new();
    let mut items: Vec<BlockItem> = Vec::new();
    proof {
        assert(all.len() == rest@.len());
        assert(all.take(rest@.len() as int) =~= all);
        assert(declarations_view(declarations@).reverse() =~= Seq::empty());
        assert(items_view(items@).reverse() =~= Seq::empty());
        assert(declaration_forms(all) + Seq::empty() =~= declaration_forms(all));
        assert(block_forms(all) + Seq::empty() =~= block_forms(all));
    }
    while rest.len() > 0
        invariant
            rest@.len() <= all.len(),
            forms_view(rest@) == all.take(rest@.len() as int),
            declaration_forms(all) == declaration_forms(all.take(rest@.len() as int))
                + declarations_view(declarations@).reverse(),
            block_forms(all) == block_forms(all.take(rest@.len() as int)) + items_view(
                items@,
            ).reverse(),
        decreases rest.len(),
    {
        let ghost n = rest@.len();
        let ghost head = all.take(n as int);
        let ghost d0 = declarations_view(declarations@);
        let ghost i0 = items_view(items@);
        proof {
            forms_last(head);
            assert(head.drop_last() =~= all.take(n - 1));
            assert(head.last() == all[n - 1]);
        }
        match rest.pop() {
            Some(form) => {
                assert(form@ == all[n - 1]) by {
                    assert(head[n - 1] == all[n - 1]);
                }
                assert(forms_view(rest@) =~= all.take(n - 1));
                match form {
                    Form::Block(item) => {
                        items.push(item);
                        assert(items_view(items@) =~= i0.push(item@));
                        assert(i0.push(item@).reverse() =~= seq![item@] + i0.reverse());
                        assert(block_forms(all.take(n - 1)).push(item@) + i0.reverse()
                            =~= block_forms(all.take(n - 1)) + (seq![item@] + i0.reverse()));
                    },
                    Form::Require(r) => {
                        let d = Declaration::Require(r);
                        declarations.push(d);
                        assert(declarations_view(declarations@) =~= d0.push(d@));
                        assert(d0.push(d@).reverse() =~= seq![d@] + d0.reverse());
                        assert(declaration_forms(all.take(n - 1)).push(d@) + d0.reverse()
                            =~= declaration_forms(all.take(n - 1)) + (seq![d@] + d0.reverse()));
                    },
                    Form::Type(t) => {
                        let d = Declaration::Type(t);
                        declarations.push(d);
                        assert(declarations_view(declarations@) =~= d0.push(d@));
                        assert(d0.push(d@).reverse() =~= seq![d@] + d0.reverse());
                        assert(declaration_forms(all.take(n - 1)).push(d@) + d0.reverse()
                            =~= declaration_forms(all.take(n - 1)) + (seq![d@] + d0.reverse()));
                    },
                    Form::Invalid(e) => {
                        let d = Declaration::Invalid(e);
                        declarations.push(d);
                        assert(declarations_view(declarations@) =~= d0.push(d@));
                        assert(d0.push(d@).reverse() =~= seq![d@] + d0.reverse());
                        assert(declaration_forms(all.take(n - 1)).push(d@) + d0.reverse()
                            =~= declaration_forms(all.take(n - 1)) + (seq![d@] + d0.reverse()));
                    },
                }
            },
            None => {},
        }
    }
    proof {
        assert(all.take(0) =~= Seq::empty());
        assert(declaration_forms(all) =~= declarations_view(declarations@).reverse());
        assert(block_forms(all) =~= items_view(items@).reverse());
    }
    Program { declarations: reverse_declarations(declarations), items: reverse_items(items) }
}

/// What became of finding and reading a module.
#[derive(Debug)]
pub enum ModuleAnswer {
    Found(Program),
    Failed(MagError),
}

/// The model of a [`ModuleAnswer`].
#[verifier::ext_equal]
pub enum SModuleAnswer {
    Found(SProgram),
    Failed(SError),
}

impl View for ModuleAnswer {
    type V = SModuleAnswer;

    open spec fn view(&self) -> SModuleAnswer {
        match self {
            ModuleAnswer::Found(p) => SModuleAnswer::Found(p@),
            ModuleAnswer::Failed(e) => SModuleAnswer::Failed(e@),
        }
    }
}

/// What a compilation was supplied with from outside.
#[derive(Debug)]
pub struct Library {
    pub modules: Vec<(String, ModuleAnswer)>,
    pub files: Files,
}

/// The model of a [`Library`].
#[verifier::ext_equal]
pub struct SLibrary {
    pub modules: Seq<(Seq<char>, SModuleAnswer)>,
    pub files: SFiles,
}

pub open spec fn module_answers(items: Seq<(String, ModuleAnswer)>) -> Seq<
    (Seq<char>, SModuleAnswer),
> {
    Seq::new(items.len(), |i: int| (items[i].0@, items[i].1@))
}

impl View for Library {
    type V = SLibrary;

    open spec fn view(&self) -> SLibrary {
        SLibrary { modules: module_answers(self.modules@), files: self.files@ }
    }
}

impl Library {
    pub fn new() -> (r: Library)
        ensures
            r@ == (SLibrary {
                modules: Seq::empty(),
                files: SFiles { texts: Seq::empty(), data: Seq::empty() },
            }),
    {
        let r = Library {
            modules: Vec::new(),
            files: Files { texts: Vec::new(), data: Vec::new() },
        };
        assert(r@.modules =~= Seq::empty());
        assert(r@.files.texts =~= Seq::empty());
        assert(r@.files.data =~= Seq::empty());
        r
    }

    fn find_module(&self, name: &str) -> (r: Option<&ModuleAnswer>)
        ensures
            match r {
                Some(a) => keyed(self@.modules, name@, 0) == Some(a@),
                None => keyed(self@.modules, name@, 0) is None,
            },
    {
        let ghost all = self@.modules;
        let mut i: usize = 0;
        while i < self.modules.len()
            invariant
                i <= self.modules.len(),
                all == self@.modules,
                keyed(all, name@, 0) == keyed(all, name@, i as nat),
            decreases self.modules.len() - i,
        {
            assert(all[i as int] == (self.modules@[i as int].0@, self.modules@[i as int].1@));
            if same(&self.modules[i].0, name) {
                return Some(&self.modules[i].1);
            }
            i = i + 1;
        }
        None
    }
}

/// The constructors of a type, with the types that their payloads denote.
pub open spec fn constructors_denoted(
    env: SEnv,
    owner: Seq<char>,
    items: Seq<(Seq<char>, SAuthoredType)>,
    vars: Set<Seq<char>>,
    done: Seq<SConstructor>,
) -> Result<Seq<SConstructor>, SError>
    decreases items.len() - done.len(),
{
    if done.len() >= items.len() {
        Ok(done)
    } else {
        let (name, payload) = items[done.len() as int];
        match denoted(env, payload, vars) {
            Err(e) => Err(e),
            Ok(t) => constructors_denoted(
                env,
                owner,
                items,
                vars,
                done.push(SConstructor { id: SConstructorId { owner, name }, payload: t }),
            ),
        }
    }
}

/// What the name of a type declaration stands for.
#[verifier::opaque]
pub open spec fn declared_value(env: SEnv, d: STypeDeclaration) -> Result<SValue, SError> {
    let vars = d.params.to_set();
    let name = env.qualified(d.name);
    match d.body {
        SDeclarationBody::Fields(fields) => match denoted_fields(env, fields, vars, Seq::empty()) {
            Err(e) => Err(e),
            Ok(f) => Ok(
                SValue::TypeDecl(
                    SDecl { name, params: d.params, body: SDeclBody::Nominal(SType::Record(f)) },
                ),
            ),
        },
        SDeclarationBody::TransparentAlias(t) => match denoted(env, t, vars) {
            Err(e) => Err(e),
            Ok(t) => Ok(SValue::Type(t)),
        },
        SDeclarationBody::Newtype(t) => match denoted(env, t, vars) {
            Err(e) => Err(e),
            Ok(t) => Ok(
                SValue::TypeDecl(SDecl { name, params: d.params, body: SDeclBody::Nominal(t) }),
            ),
        },
        SDeclarationBody::Adt(items) => match constructors_denoted(
            env,
            name,
            items,
            vars,
            Seq::empty(),
        ) {
            Err(e) => Err(e),
            Ok(c) => Ok(
                SValue::TypeDecl(SDecl { name, params: d.params, body: SDeclBody::Adt(c) }),
            ),
        },
    }
}

/// The world once a type is declared.
pub open spec fn type_declared(w: SWorld, d: STypeDeclaration) -> (SWorld, Result<(), SError>) {
    match declared_value(w.env, d) {
        Err(e) => (w, Err(e)),
        Ok(v) => {
            let (env, table) = defined(w.env, w.table, d.name, v);
            (SWorld { env, table, ..w }, Ok(()))
        },
    }
}

fn make_constructors(
    env: &Env,
    owner: &str,
    items: &Vec<ConstructorDeclaration>,
    vars: &NameSet,
) -> (r: Result<Vec<ConstructorDecl>, MagError>)
    ensures
        match r {
            Ok(c) => constructors_denoted(
                env@,
                owner@,
                authored_constructors(items@),
                vars@,
                Seq::empty(),
            ) == Ok::<Seq<SConstructor>, SError>(decl_constructors(c@)),
            Err(e) => constructors_denoted(
                env@,
                owner@,
                authored_constructors(items@),
                vars@,
                Seq::empty(),
            ) == Err::<Seq<SConstructor>, SError>(e@),
        },
{
    let ghost all = authored_constructors(items@);
    let ghost whole = constructors_denoted(env@, owner@, all, vars@, Seq::empty());
    let mut done: Vec<ConstructorDecl> = Vec::new();
    assert(decl_constructors(done@) =~= Seq::empty());
    while done.len() < items.len()
        invariant
            done.len() <= items.len(),
            all == authored_constructors(items@),
            whole == constructors_denoted(env@, owner@, all, vars@, Seq::empty()),
            whole == constructors_denoted(
                env@,
                owner@,
                all,
                vars@,
                decl_constructors(done@),
            ),
        decreases items.len() - done.len(),
    {
        let ghost so_far = decl_constructors(done@);
        let i = done.len();
        assert(all[i as int] == (items@[i as int].name@, items@[i as int].payload@));
        let payload = resolve_type(env, &items[i].payload, vars)?;
        let made = ConstructorDecl {
            id: ConstructorDeclarationId {
                owner: owner.to_owned(),
                name: items[i].name.clone(),
            },
            payload,
        };
        done.push(made);
        assert(decl_constructors(done@) =~= so_far.push(made@));
    }
    Ok(done)
}

fn make_declared_value(env: &Env, d: &TypeDeclaration) -> (r: Result<Value, MagError>)
    ensures
        value_result(r) == declared_value(env@, d@),
{
    proof {
        reveal(declared_value);
    }
    let mut vars = NameSet::new();
    vars.extend_names(&d.params);
    assert(vars@ =~= d@.params.to_set());
    let name = env.qualify(&d.name);
    match &d.body {
        TypeDeclarationBody::Fields(fields) => {
            let f = resolve_type_fields(env, fields, &vars)?;
            let body = MagType::Record(f);
            assert(body@ == SType::Record(fields_view(f@)));
            Ok(
                Value::TypeDecl(
                    TypeDecl {
                        name,
                        params: clone_names(&d.params),
                        body: TypeDeclBody::Nominal(body),
                    },
                ),
            )
        },
        TypeDeclarationBody::TransparentAlias(t) => {
            let t = resolve_type(env, t, &vars)?;
            Ok(Value::Type(t))
        },
        TypeDeclarationBody::Newtype(t) => {
            let t = resolve_type(env, t, &vars)?;
            Ok(
                Value::TypeDecl(
                    TypeDecl {
                        name,
                        params: clone_names(&d.params),
                        body: TypeDeclBody::Nominal(t),
                    },
                ),
            )
        },
        TypeDeclarationBody::Adt(items) => {
            let c = make_constructors(env, &name, items, &vars)?;
            Ok(
                Value::TypeDecl(
                    TypeDecl { name, params: clone_names(&d.params), body: TypeDeclBody::Adt(c) },
                ),
            )
        },
    }
}

/// Declares a type.
pub fn declare_type(w: &mut World, d: &TypeDeclaration) -> (r: Result<(), MagError>)
    ensures
        (final(w)@, unit_result(r)) == type_declared(old(w)@, d@),
{
    let ghost before = w@;
    let v = make_declared_value(&w.env, d)?;
    w.env.define(&mut w.table, &d.name, v);
    assert(w@ =~= type_declared(before, d@).0);
    Ok(())
}

/// What becomes of the world when a module is required.
pub type Loader = spec_fn(SWorld, Seq<char>) -> (SWorld, Result<(), SError>);

/// How a program is run in a world.
pub type Runner = spec_fn(SWorld, SProgram) -> SEval;

/// The world once the declarations from `i` on have taken effect.
pub open spec fn declared_rule(w: SWorld, forms: Seq<SForm>, load: Loader, i: nat) -> (
    SWorld,
    Result<(), SError>,
)
    decreases forms.len() - i,
{
    if i >= forms.len() {
        (w, Ok(()))
    } else {
        let (w1, r) = match forms[i as int] {
            SForm::Require(name, exposure) => if exposure is Qualified {
                load(w, name)
            } else {
                (w, eval_error("only qualified imports are supported: "@ + name))
            },
            SForm::Type(d) => type_declared(w, d),
            SForm::Invalid(e) => (w, Err(authoring_failure(e))),
            SForm::Block(_) => (w, Ok(())),
        };
        match r {
            Err(e) => (w1, Err(e)),
            Ok(_) => declared_rule(w1, forms, load, i + 1),
        }
    }
}

/// What the block of a program comes to. Frames that nothing can reach any more are dropped.
#[verifier::opaque]
pub open spec fn block_run(files: SFiles, w: SWorld, items: Seq<SItem>) -> SEval {
    let (table, made) = block_made(w.env, w.table, Seq::empty(), items, None);
    let w1 = SWorld { table, ..w };
    match made {
        Err(e) => (w1, Err(e)),
        Ok(block) => {
            let (w2, r) = block_rule(
                w1,
                block,
                evaluator(
                    files,
                    left(w1.budget.exprs, w1.budget.expr_limit),
                    left(w1.budget.calls, w1.budget.call_limit),
                ),
            );
            (
                swept(
                    w2,
                    match r {
                        Ok(v) => seq![v],
                        Err(_) => Seq::empty(),
                    },
                ),
                r,
            )
        },
    }
}

/// The world and the table in which a module starts: the builtin names and the host's inputs.
#[verifier::opaque]
pub open spec fn module_entered(w: SWorld, name: Seq<char>) -> SWorld {
    let (env, table) = fresh(w.env, w.table, name);
    let (env, table) = match w.env.lookup_by_type("inputs"@, SType::HostInputs) {
        Ok(v) => defined(env, table, "inputs"@, v),
        Err(_) => (env, table),
    };
    SWorld { env, table, ..w }
}

/// The environment and the table once the definitions of loaded modules, from `i` on, are
/// visible.
pub open spec fn all_installed(
    env: SEnv,
    table: SBindings,
    loaded: Seq<(Seq<char>, Seq<(Seq<char>, SValue)>)>,
    i: nat,
) -> (SEnv, SBindings)
    decreases loaded.len() - i,
{
    if i >= loaded.len() {
        (env, table)
    } else {
        let (e, t) = all_offered(
            env,
            table,
            qualified_as(loaded[i as int].0, loaded[i as int].1),
        );
        all_installed(e, t, loaded, i + 1)
    }
}

/// The world in which one module is visible under its name.
pub open spec fn one_installed(
    w: SWorld,
    name: Seq<char>,
    defs: Seq<(Seq<char>, SValue)>,
) -> SWorld {
    let (env, table) = all_offered(w.env, w.table, qualified_as(name, defs));
    SWorld { env, table, ..w }
}

/// Loads a module and makes it visible, with those that it required.
#[verifier::opaque]
pub open spec fn module_loaded(w: SWorld, name: Seq<char>, p: SProgram, run: Runner) -> (
    SWorld,
    Result<(), SError>,
) {
    let (w1, r) = run(module_entered(w, name), p);
    let back = SWorld {
        env: SEnv { module: w.env.module, ..w1.env.call_unscoped(w.env.scopes) },
        ..w1
    };
    match r {
        Err(e) => (back, Err(e)),
        Ok(_) => {
            let defs = exports(w1.env);
            let w2 = one_installed(
                SWorld { modules: back.modules.finished(name, defs), ..back },
                name,
                defs,
            );
            let (env, table) = all_installed(w2.env, w2.table, w2.modules.loaded, 0);
            (SWorld { env, table, ..w2 }, Ok(()))
        },
    }
}

/// What becomes of the world when a module is required: one that is loaded becomes visible, and
/// one that is not is loaded.
#[verifier::opaque]
pub open spec fn required_rule(lib: SLibrary, w: SWorld, name: Seq<char>, run: Runner) -> (
    SWorld,
    Result<(), SError>,
) {
    match w.modules.cached(name) {
        Some(defs) => (one_installed(w, name, defs), Ok(())),
        None => match w.modules.begun(name) {
            Err(e) => (w, Err(e)),
            Ok(modules) => {
                let w1 = SWorld { modules, ..w };
                match keyed(lib.modules, name, 0) {
                    None => (
                        w1.wanting(SWanted::Module(name)),
                        eval_error("module is not supplied: "@ + name),
                    ),
                    Some(SModuleAnswer::Failed(e)) => (w1, Err(e)),
                    Some(SModuleAnswer::Found(p)) => module_loaded(w1, name, p, run),
                }
            },
        },
    }
}

/// What a program comes to, where modules may require each other `nesting` deep.
pub open spec fn program_run(lib: SLibrary, w: SWorld, p: SProgram, nesting: nat) -> SEval
    decreases nesting, 2nat,
{
    let (w1, r) = declared_rule(w, p.declarations, loader(lib, nesting), 0);
    match r {
        Err(e) => (w1, Err(e)),
        Ok(_) => block_run(lib.files, w1, p.items),
    }
}

pub open spec fn loader(lib: SLibrary, nesting: nat) -> Loader
    decreases nesting, 1nat,
{
    |w: SWorld, name: Seq<char>| required(lib, w, name, nesting)
}

pub open spec fn required(lib: SLibrary, w: SWorld, name: Seq<char>, nesting: nat) -> (
    SWorld,
    Result<(), SError>,
)
    decreases nesting, 0nat,
{
    if nesting == 0 {
        (w, Err(SError::Budget("module nesting limit reached"@)))
    } else {
        required_rule(lib, w, name, runner(lib, (nesting - 1) as nat))
    }
}

pub open spec fn runner(lib: SLibrary, nesting: nat) -> Runner
    decreases nesting, 3nat,
{
    |w: SWorld, p: SProgram| program_run(lib, w, p, nesting)
}

fn run_block(files: &Files, w: &mut World, items: &Vec<BlockItem>) -> (r: Result<Value, MagError>)
    ensures
        (final(w)@, value_result(r)) == block_run(files@, old(w)@, items_view(items@)),
{
    proof {
        reveal(block_run);
    }
    let ghost before = w@;
    let made = compile_block(&w.env, &mut w.table, items);
    assert(w@ =~= SWorld { table: w@.table, ..before });
    let block = match made {
        Ok(b) => b,
        Err(e) => {
            return Err(e);
        },
    };
    let depth: u64 = if w.budget.exprs <= w.budget.expr_limit {
        (w.budget.expr_limit - w.budget.exprs) as u64
    } else {
        0
    };
    let calls: u64 = if w.budget.calls <= w.budget.call_limit {
        (w.budget.call_limit - w.budget.calls) as u64
    } else {
        0
    };
    let r = eval_checked_block(files, w, &block, depth, calls);
    let mut kept: Vec<Value> = Vec::new();
    match &r {
        Ok(v) => {
            let copy = v.clone();
            kept.push(copy);
            assert(values_view(kept@) =~= seq![v@]);
        },
        Err(_) => {
            assert(values_view(kept@) =~= Seq::empty());
        },
    }
    w.sweep(kept);
    r
}

fn install_all(w: &mut World)
    ensures
        ({
            let (env, table) = all_installed(
                old(w)@.env,
                old(w)@.table,
                old(w)@.modules.loaded,
                0,
            );
            final(w)@ == (SWorld { env, table, ..old(w)@ })
        }),
{
    let ghost before = w@;
    let ghost loaded = w@.modules.loaded;
    let ghost whole = all_installed(w@.env, w@.table, loaded, 0);
    let mut i: usize = 0;
    while i < w.modules.loaded.len()
        invariant
            i <= w.modules.loaded@.len(),
            loaded == w@.modules.loaded,
            w@ == (SWorld { env: w@.env, table: w@.table, ..before }),
            whole == all_installed(w@.env, w@.table, loaded, i as nat),
        decreases w.modules.loaded@.len() - i,
    {
        let ghost entry = w.modules.loaded@[i as int];
        let ghost mid = w@;
        assert(loaded[i as int] == (entry.0@, crate::ast::value_fields_view(entry.1@)));
        let name = w.modules.loaded[i].0.clone();
        let defs = clone_definitions(&w.modules.loaded[i].1);
        w.env.install_module(&mut w.table, &name, &defs);
        assert(w@ =~= SWorld { env: w@.env, table: w@.table, ..mid });
        i = i + 1;
    }
}

fn enter_module(w: &mut World, name: &str)
    ensures
        final(w)@ == module_entered(old(w)@, name@),
{
    proof {
        reveal(module_entered);
    }
    let ghost before = w@;
    let inputs = w.env.lookup_by_type("inputs", &MagType::HostInputs);
    w.env.start_module(&mut w.table, name);
    match inputs {
        Ok(v) => {
            w.env.define(&mut w.table, "inputs", v);
        },
        Err(_) => {},
    }
    assert(w@ =~= module_entered(before, name@));
}

fn load_module(lib: &Library, w: &mut World, name: &str, p: &Program, nesting: u64) -> (r: Result<
    (),
    MagError,
>)
    ensures
        (final(w)@, unit_result(r)) == module_loaded(
            old(w)@,
            name@,
            p@,
            runner(lib@, nesting as nat),
        ),
    decreases nesting, 3nat,
{
    proof {
        reveal(module_loaded);
    }
    let ghost w0 = w@;
    let ghost run = runner(lib@, nesting as nat);
    let scopes = w.env.snapshot();
    let module = w.env.module().to_owned();
    enter_module(w, name);
    let ghost entered = w@;
    let r = run_program(lib, w, p, nesting);
    let ghost w1 = w@;
    assert(run(entered, p@) == (w1, value_result(r)));
    let defs = w.env.user_defs();
    w.env.leave_call_scopes(scopes);
    w.env.module = module;
    let ghost back = w@;
    assert(back =~= SWorld {
        env: SEnv { module: w0.env.module, ..w1.env.call_unscoped(w0.env.scopes) },
        ..w1
    });
    match r {
        Err(e) => Err(e),
        Ok(_) => {
            let copy = clone_definitions(&defs);
            w.modules.finish_module(name, copy);
            let ghost finished = w@;
            assert(finished =~= SWorld {
                modules: back.modules.finished(name@, exports(w1.env)),
                ..back
            });
            w.env.install_module(&mut w.table, name, &defs);
            assert(w@ =~= one_installed(finished, name@, exports(w1.env)));
            install_all(w);
            Ok(())
        },
    }
}

fn require_module(lib: &Library, w: &mut World, name: &str, nesting: u64) -> (r: Result<
    (),
    MagError,
>)
    ensures
        (final(w)@, unit_result(r)) == required(lib@, old(w)@, name@, nesting as nat),
    decreases nesting, 0nat,
{
    proof {
        reveal(required_rule);
        reveal(SModules::begun);
    }
    if nesting == 0 {
        return Err(MagError::Budget("module nesting limit reached".to_owned()));
    }
    let ghost w0 = w@;
    match w.modules.module_cached(name) {
        Some(defs) => {
            w.env.install_module(&mut w.table, name, &defs);
            assert(w@ =~= one_installed(w0, name@, crate::ast::value_fields_view(defs@)));
            return Ok(());
        },
        None => {},
    }
    w.modules.begin_module(name)?;
    let ghost w1 = w@;
    assert(w1 =~= SWorld { modules: w1.modules, ..w0 });
    match lib.find_module(name) {
        None => {
            w.wanted = Some(Wanted::Module(name.to_owned()));
            assert(w@ =~= w1.wanting(SWanted::Module(name@)));
            Err(MagError::Eval(cat2("module is not supplied: ", name)))
        },
        Some(ModuleAnswer::Failed(e)) => Err(e.clone()),
        Some(ModuleAnswer::Found(p)) => load_module(lib, w, name, p, nesting - 1),
    }
}

fn run_declarations(lib: &Library, w: &mut World, items: &Vec<Declaration>, nesting: u64) -> (r:
    Result<(), MagError>)
    ensures
        (final(w)@, unit_result(r)) == declared_rule(
            old(w)@,
            declarations_view(items@),
            loader(lib@, nesting as nat),
            0,
        ),
    decreases nesting, 1nat,
{
    let ghost all = declarations_view(items@);
    let ghost load = loader(lib@, nesting as nat);
    let ghost whole = declared_rule(w@, all, load, 0);
    let mut i: usize = 0;
    while i < items.len()
        invariant
            i <= items.len(),
            all == declarations_view(items@),
            load == loader(lib@, nesting as nat),
            whole == declared_rule(old(w)@, all, load, 0),
            whole == declared_rule(w@, all, load, i as nat),
        decreases items.len() - i,
    {
        let ghost before = w@;
        assert(all[i as int] == items@[i as int]@);
        match &items[i] {
            Declaration::Require(q) => match &q.exposure {
                ImportExposure::Qualified => {
                    let r = require_module(lib, w, &q.module, nesting);
                    assert(load(before, q.module@) == (w@, unit_result(r)));
                    r?;
                },
                _ => {
                    return Err(
                        MagError::Eval(
                            cat2("only qualified imports are supported: ", &q.module),
                        ),
                    );
                },
            },
            Declaration::Type(d) => {
                declare_type(w, d)?;
            },
            Declaration::Invalid(e) => {
                return Err(e.clone().into_mag_error());
            },
        }
        i = i + 1;
    }
    Ok(())
}

fn run_program(lib: &Library, w: &mut World, p: &Program, nesting: u64) -> (r: Result<
    Value,
    MagError,
>)
    ensures
        (final(w)@, value_result(r)) == program_run(lib@, old(w)@, p@, nesting as nat),
    decreases nesting, 2nat,
{
    run_declarations(lib, w, &p.declarations, nesting)?;
    run_block(&lib.files, w, &p.items)
}

/// How deep modules may require each other: no deeper than there are modules, since none may
/// require itself.
pub open spec fn nesting_limit(lib: SLibrary) -> nat {
    if lib.modules.len() >= u64::MAX {
        u64::MAX as nat
    } else {
        lib.modules.len() + 1
    }
}

fn module_nesting(lib: &Library) -> (r: u64)
    ensures
        r as nat == nesting_limit(lib@),
{
    let n = lib.modules.len();
    assert(lib@.modules.len() == n);
    if n as u64 >= u64::MAX {
        u64::MAX
    } else {
        n as u64 + 1
    }
}

/// What a program comes to with a budget of its own where none is installed.
pub open spec fn program_evaluated(lib: SLibrary, w: SWorld, p: SProgram) -> SEval {
    if w.budget.steps is Some {
        program_run(lib, w, p, nesting_limit(lib))
    } else {
        let (w1, r) = program_run(
            lib,
            w.with_budget(w.budget.installed(w.limits)),
            p,
            nesting_limit(lib),
        );
        (
            w1.with_budget(
                Budget {
                    steps: None,
                    call_limit: w.budget.call_limit,
                    expr_limit: w.budget.expr_limit,
                    ..w1.budget
                },
            ),
            r,
        )
    }
}

/// Evaluates a program: its declarations first, then its block.
pub fn eval_program(lib: &Library, w: &mut World, p: &Program) -> (r: Result<Value, MagError>)
    ensures
        (final(w)@, value_result(r)) == program_evaluated(lib@, old(w)@, p@),
{
    let limits = w.limits;
    let guard = ensure(&mut w.budget, limits);
    let r = run_program(lib, w, p, module_nesting(lib));
    release(&mut w.budget, guard);
    r
}

/// The artifact that a program's value is.
pub open spec fn artifact_of(v: SValue, source: Seq<char>) -> Result<SJson, SError>
    decreases v,
{
    match v {
        SValue::Artifact(j) => Ok(j),
        SValue::Typed(inner, SType::Artifact) => artifact_of(*inner, source),
        other => eval_error(
            source + " must return Artifact, got "@ + crate::ast::kind_name(other),
        ),
    }
}

pub fn extract_artifact(v: &Value, source: &str) -> (r: Result<Json, MagError>)
    ensures
        crate::codec::json_result(r) == artifact_of(v@, source@),
    decreases v,
{
    match v {
        Value::Artifact(j) => Ok(j.clone()),
        Value::Typed(inner, MagType::Artifact) => extract_artifact(inner, source),
        _ => Err(MagError::Eval(cat3(source, " must return Artifact, got ", v.kind_text()))),
    }
}

/// What a compilation comes to, and the world that it leaves behind.
#[verifier::opaque]
pub open spec fn compiled_cold(
    lib: SLibrary,
    p: SProgram,
    inputs: SJson,
    limits: CompilerLimits,
) -> (SWorld, Result<SJson, SError>) {
    let w = new_world(limits);
    let w = w.with_budget(w.budget.installed(limits));
    let (env, table) = defined(w.env, w.table, "inputs"@, SValue::HostInputs(inputs));
    let (w1, r) = program_evaluated(lib, SWorld { env, table, ..w }, p);
    (
        w1,
        match r {
            Err(e) => Err(e),
            Ok(v) => artifact_of(v, "top-level program"@),
        },
    )
}

/// Compiles a program from nothing but what it is given. What the program asked for and was not
/// supplied with is left in the world.
pub fn compile_cold(lib: &Library, p: &Program, inputs: Json, limits: CompilerLimits) -> (r: (
    World,
    Result<Json, MagError>,
))
    ensures
        (r.0@, crate::codec::json_result(r.1)) == compiled_cold(lib@, p@, inputs@, limits),
{
    proof {
        reveal(compiled_cold);
    }
    let mut w = World::new(limits);
    let _guard = install(&mut w.budget, limits);
    w.env.define(&mut w.table, "inputs", Value::HostInputs(inputs));
    match eval_program(lib, &mut w, p) {
        Err(e) => (w, Err(e)),
        Ok(v) => {
            let artifact = extract_artifact(&v, "top-level program");
            (w, artifact)
        },
    }
}

/// Those of some values that can be called with an argument, behind those that were found before.
pub open spec fn callable(
    env: SEnv,
    table: SBindings,
    found: Seq<SValue>,
    arg: SValue,
    i: nat,
    done: Seq<SValue>,
) -> (SBindings, Seq<SValue>)
    decreases found.len() - i,
{
    if i >= found.len() {
        (table, done)
    } else {
        match found[i as int] {
            SValue::Fn(f) => {
                let (t, r) = called(env, table, f, seq![arg]);
                callable(
                    env,
                    t,
                    found,
                    arg,
                    i + 1,
                    if r is Ok {
                        done.push(found[i as int])
                    } else {
                        done
                    },
                )
            },
            SValue::BuiltinFn(_) => callable(
                env,
                table,
                found,
                arg,
                i + 1,
                done.push(found[i as int]),
            ),
            _ => callable(env, table, found, arg, i + 1, done),
        }
    }
}

/// The one function under a name that takes an argument, applied to it.
#[verifier::opaque]
pub open spec fn named_applied(files: SFiles, w: SWorld, name: Seq<char>, arg: SValue) -> SEval {
    let (table, matching) = callable(
        w.env,
        w.table,
        w.env.candidates(name),
        arg,
        0,
        Seq::empty(),
    );
    let w1 = SWorld { table, ..w };
    if matching.len() == 1 {
        applied(
            files,
            w1,
            matching[0],
            seq![arg],
            None,
            left(w1.budget.exprs, w1.budget.expr_limit),
            left(w1.budget.calls, w1.budget.call_limit),
            NESTED_OPERATIONS as nat,
        )
    } else if matching.len() == 0 {
        (w1, type_error("no overload "@ + name + " matches call"@))
    } else {
        (w1, type_error("ambiguous overload "@ + name + " for call"@))
    }
}

pub fn apply_named(files: &Files, w: &mut World, name: &str, arg: Value) -> (r: Result<
    Value,
    MagError,
>)
    ensures
        (final(w)@, value_result(r)) == named_applied(files@, old(w)@, name@, arg@),
{
    proof {
        reveal(named_applied);
    }
    let ghost w0 = w@;
    let found = w.env.lookup_candidates(name);
    let mut args: Vec<Value> = Vec::new();
    let ghost given = arg@;
    args.push(arg);
    assert(values_view(args@) =~= seq![given]);
    let ghost all = values_view(found@);
    let ghost whole = callable(w0.env, w0.table, all, given, 0, Seq::empty());
    let mut matching: Vec<Value> = Vec::new();
    let mut i: usize = 0;
    proof {
        assert(all.len() == found@.len());
        assert(values_view(matching@) =~= Seq::empty());
    }
    while i < found.len()
        invariant
            i <= found.len(),
            all == values_view(found@),
            all.len() == found@.len(),
            values_view(args@) == seq![given],
            w@ == (SWorld { table: w@.table, ..w0 }),
            whole == callable(w0.env, w0.table, all, given, 0, Seq::empty()),
            whole == callable(
                w0.env,
                w@.table,
                all,
                given,
                i as nat,
                values_view(matching@),
            ),
        decreases found.len() - i,
    {
        let ghost so_far = values_view(matching@);
        let ghost mid = w@;
        assert(all[i as int] == found@[i as int]@);
        match &found[i] {
            Value::Fn(f) => {
                let fits = check_call(&w.env, &mut w.table, f, &args).is_ok();
                assert(w@ =~= SWorld { table: w@.table, ..mid });
                if fits {
                    let v = found[i].clone();
                    matching.push(v);
                    assert(values_view(matching@) =~= so_far.push(v@));
                }
            },
            Value::BuiltinFn(_) => {
                let v = found[i].clone();
                matching.push(v);
                assert(values_view(matching@) =~= so_far.push(v@));
            },
            _ => {},
        }
        i = i + 1;
    }
    assert(values_view(matching@).len() == matching@.len());
    if matching.len() == 1 {
        let depth: u64 = if w.budget.exprs <= w.budget.expr_limit {
            (w.budget.expr_limit - w.budget.exprs) as u64
        } else {
            0
        };
        let calls: u64 = if w.budget.calls <= w.budget.call_limit {
            (w.budget.call_limit - w.budget.calls) as u64
        } else {
            0
        };
        assert(values_view(matching@)[0] == matching@[0]@);
        apply_with_signature(
            files,
            w,
            &matching[0],
            &args,
            None,
            depth,
            calls,
            NESTED_OPERATIONS,
        )
    } else if matching.len() == 0 {
        Err(MagError::Type(cat3("no overload ", name, " matches call")))
    } else {
        Err(MagError::Type(cat3("ambiguous overload ", name, " for call")))
    }
}

} // verus!
