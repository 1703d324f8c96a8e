//! Candidates: the bindings that a name may refer to in nested scopes, and their types.

use vstd::prelude::*;

use crate::ast::{BindingId, SValue, Value};
use crate::bindings::{Bindings, SBindings};
use crate::builtins::{collides, collides_with_builtin};
use crate::compatible::{compatible_with_bindable, fit_binding};
use crate::env::{keyed, value_result, with_key, Env, SEnv};
use crate::error::{MagError, SError};
use crate::infer::{has_type, locals_view, Locals, SLocals};
use crate::resolve::type_error;
use crate::substitution::{
    apply, canonical_text, canonical_type, collect_vars, substitute, vars, NameSet, Substitution,
};
use crate::text::{
    cat2, cat4, clone_names, decimal, same, show_u64, show_usize, strings,
};
use crate::type_rules::unit_result;
use crate::types::{clone_types, type_text, types_view, MagType, SType};
use crate::value_types::opt_type;

verus! {

broadcast use vstd::seq_lib::group_seq_properties;

/// A binding that a name may refer to.
pub struct CheckedCandidate {
    pub id: BindingId,
    pub ty: MagType,
    /// The type parameters that each use of the binding instantiates anew.
    pub generic_binders: Vec<String>,
    /// Whether the variables of the type are in scope as type variables.
    pub contributes_type_vars: bool,
}

/// The model of a [`CheckedCandidate`].
#[verifier::ext_equal]
pub struct SCandidate {
    pub id: BindingId,
    pub ty: SType,
    pub generic_binders: Seq<Seq<char>>,
    pub contributes_type_vars: bool,
}

impl View for CheckedCandidate {
    type V = SCandidate;

    open spec fn view(&self) -> SCandidate {
        SCandidate {
            id: self.id,
            ty: self.ty@,
            generic_binders: strings(self.generic_binders@),
            contributes_type_vars: self.contributes_type_vars,
        }
    }
}

impl Clone for CheckedCandidate {
    fn clone(&self) -> (r: CheckedCandidate)
        ensures
            r@ == self@,
    {
        CheckedCandidate {
            id: self.id,
            ty: self.ty.clone(),
            generic_binders: clone_names(&self.generic_binders),
            contributes_type_vars: self.contributes_type_vars,
        }
    }
}

/// The candidates that one scope has under each name.
pub type CheckedScope = Vec<(String, Vec<CheckedCandidate>)>;

/// The model of a [`CheckedScope`].
pub type SScope = Seq<(Seq<char>, Seq<SCandidate>)>;

pub open spec fn candidates_view(items: Seq<CheckedCandidate>) -> Seq<SCandidate> {
    Seq::new(items.len(), |i: int| items[i]@)
}

pub open spec fn scope_view(items: Seq<(String, Vec<CheckedCandidate>)>) -> SScope {
    Seq::new(items.len(), |i: int| (items[i].0@, candidates_view(items[i].1@)))
}

pub open spec fn scopes_view(items: Seq<CheckedScope>) -> Seq<SScope> {
    Seq::new(items.len(), |i: int| scope_view(items[i]@))
}

/// The name under which a scope keeps the type variables that it binds.
pub open spec fn type_binder_key() -> Seq<char> {
    "\0type-binders"@
}

pub open spec fn scope_candidates(scope: SScope, name: Seq<char>) -> Seq<SCandidate> {
    match keyed(scope, name, 0) {
        Some(c) => c,
        None => Seq::empty(),
    }
}

pub open spec fn scoped_candidates(scopes: Seq<SScope>, name: Seq<char>, n: nat) -> Seq<SCandidate>
    decreases n,
{
    if n == 0 {
        Seq::empty()
    } else {
        scoped_candidates(scopes, name, (n - 1) as nat) + scope_candidates(scopes[n - 1], name)
    }
}

/// The binders of a ready function.
pub open spec fn ready_binders(env: SEnv, id: BindingId) -> Seq<Seq<char>> {
    match env.ready(id) {
        Ok(SValue::Fn(f)) => f.type_params,
        _ => Seq::empty(),
    }
}

/// The candidates that the environment has under some identities: those with a recorded type.
pub open spec fn env_candidates_of(env: SEnv, table: SBindings, ids: Seq<BindingId>) -> Seq<
    SCandidate,
>
    decreases ids.len(),
{
    if ids.len() == 0 {
        Seq::empty()
    } else {
        let rest = env_candidates_of(env, table, ids.drop_last());
        match table.type_of(ids.last()) {
            Some(ty) => rest.push(
                SCandidate {
                    id: ids.last(),
                    ty,
                    generic_binders: ready_binders(env, ids.last()),
                    contributes_type_vars: false,
                },
            ),
            None => rest,
        }
    }
}

/// The first candidate of each identity.
pub open spec fn first_of_each(items: Seq<SCandidate>) -> Seq<SCandidate>
    decreases items.len(),
{
    if items.len() == 0 {
        Seq::empty()
    } else {
        let rest = first_of_each(items.drop_last());
        if has_candidate(rest, items.last().id) {
            rest
        } else {
            rest.push(items.last())
        }
    }
}

pub open spec fn has_candidate(items: Seq<SCandidate>, id: BindingId) -> bool {
    exists|i: int| 0 <= i < items.len() && (#[trigger] items[i]).id == id
}

/// The candidates of a name: those of the outer scopes, of the current one, and of the
/// environment, each identity once.
#[verifier::opaque]
pub open spec fn visible(
    env: SEnv,
    table: SBindings,
    scopes: Seq<SScope>,
    current: SScope,
    name: Seq<char>,
) -> Seq<SCandidate> {
    first_of_each(
        scoped_candidates(scopes, name, scopes.len()) + scope_candidates(current, name)
            + env_candidates_of(env, table, env.candidate_ids(name)),
    )
}

fn scope_index(scope: &CheckedScope, name: &str) -> (r: Option<usize>)
    ensures
        match r {
            Some(i) => {
                &&& i < scope@.len()
                &&& scope@[i as int].0@ == name@
                &&& keyed(scope_view(scope@), name@, 0) == Some(candidates_view(scope@[i as int].1@))
                &&& forall|v: Seq<SCandidate>|
                    with_key(scope_view(scope@), name@, v, 0) == scope_view(scope@).update(
                        i as int,
                        (name@, v),
                    )
            },
            None => {
                &&& keyed(scope_view(scope@), name@, 0) is None
                &&& forall|v: Seq<SCandidate>|
                    with_key(scope_view(scope@), name@, v, 0) == scope_view(scope@).push((name@, v))
            },
        },
{
    let ghost all = scope_view(scope@);
    let mut i: usize = 0;
    while i < scope.len()
        invariant
            i <= scope.len(),
            all == scope_view(scope@),
            keyed(all, name@, 0) == keyed(all, name@, i as nat),
            forall|v: Seq<SCandidate>|
                with_key(all, name@, v, 0) == with_key(all, name@, v, i as nat),
        decreases scope.len() - i,
    {
        if same(&scope[i].0, name) {
            return Some(i);
        }
        i = i + 1;
    }
    None
}

fn append_candidates(out: &mut Vec<CheckedCandidate>, items: &Vec<CheckedCandidate>)
    ensures
        candidates_view(final(out)@) == candidates_view(old(out)@) + candidates_view(items@),
{
    let ghost before = candidates_view(out@);
    let ghost all = candidates_view(items@);
    let mut i: usize = 0;
    assert(before + all.take(0) =~= before);
    while i < items.len()
        invariant
            i <= items.len(),
            all == candidates_view(items@),
            candidates_view(out@) == before + all.take(i as int),
        decreases items.len() - i,
    {
        let ghost so_far = candidates_view(out@);
        let item = items[i].clone();
        out.push(item);
        proof {
            assert(candidates_view(out@) =~= so_far.push(item@));
            assert(all.take(i + 1) =~= all.take(i as int).push(item@));
        }
        i = i + 1;
    }
    assert(all.take(items.len() as int) =~= all);
}

fn append_scope(out: &mut Vec<CheckedCandidate>, scope: &CheckedScope, name: &str)
    ensures
        candidates_view(final(out)@) == candidates_view(old(out)@) + scope_candidates(
            scope_view(scope@),
            name@,
        ),
{
    match scope_index(scope, name) {
        Some(i) => append_candidates(out, &scope[i].1),
        None => {
            assert(candidates_view(out@) + Seq::empty() =~= candidates_view(out@));
        },
    }
}

/// The candidates of a name in one scope.
pub fn candidates_in_scope(scope: &CheckedScope, name: &str) -> (r: Vec<CheckedCandidate>)
    ensures
        candidates_view(r@) == scope_candidates(scope_view(scope@), name@),
{
    let mut r: Vec<CheckedCandidate> = Vec::new();
    assert(candidates_view(r@) =~= Seq::empty());
    append_scope(&mut r, scope, name);
    assert(Seq::<SCandidate>::empty() + scope_candidates(scope_view(scope@), name@)
        =~= scope_candidates(scope_view(scope@), name@));
    r
}

fn env_candidates(env: &Env, table: &Bindings, name: &str) -> (r: Vec<CheckedCandidate>)
    ensures
        candidates_view(r@) == env_candidates_of(env@, table@, env@.candidate_ids(name@)),
{
    let ids = env.lookup_candidate_ids(name);
    let mut r: Vec<CheckedCandidate> = Vec::new();
    let mut i: usize = 0;
    assert(ids@.take(0) =~= Seq::empty());
    assert(candidates_view(r@) =~= Seq::empty());
    while i < ids.len()
        invariant
            i <= ids.len(),
            candidates_view(r@) == env_candidates_of(env@, table@, ids@.take(i as int)),
        decreases ids.len() - i,
    {
        let ghost so_far = candidates_view(r@);
        proof {
            assert(ids@.take(i + 1).drop_last() =~= ids@.take(i as int));
            assert(ids@.take(i + 1).last() == ids@[i as int]);
        }
        match table.binding_type(ids[i]) {
            Some(ty) => {
                let generic_binders = match env.ready_binding(ids[i]) {
                    Ok(Value::Fn(f)) => clone_names(&f.type_params),
                    _ => {
                        let none: Vec<String> = Vec::new();
                        assert(strings(none@) =~= Seq::empty());
                        none
                    },
                };
                let candidate = CheckedCandidate {
                    id: ids[i],
                    ty,
                    generic_binders,
                    contributes_type_vars: false,
                };
                r.push(candidate);
                assert(candidates_view(r@) =~= so_far.push(candidate@));
            },
            None => {},
        }
        i = i + 1;
    }
    assert(ids@.take(ids.len() as int) =~= ids@);
    r
}

fn has_candidate_id(items: &Vec<CheckedCandidate>, id: BindingId) -> (r: bool)
    ensures
        r == has_candidate(candidates_view(items@), id),
{
    let ghost all = candidates_view(items@);
    let mut i: usize = 0;
    while i < items.len()
        invariant
            i <= items.len(),
            all == candidates_view(items@),
            forall|j: int| 0 <= j < i ==> (#[trigger] all[j]).id != id,
        decreases items.len() - i,
    {
        if items[i].id == id {
            assert(all[i as int].id == id);
            return true;
        }
        i = i + 1;
    }
    false
}

pub fn visible_candidates(
    env: &Env,
    table: &Bindings,
    scopes: &Vec<CheckedScope>,
    current: &CheckedScope,
    name: &str,
) -> (r: Vec<CheckedCandidate>)
    ensures
        candidates_view(r@) == visible(
            env@,
            table@,
            scopes_view(scopes@),
            scope_view(current@),
            name@,
        ),
{
    proof {
        reveal(visible);
    }
    let ghost outer = scopes_view(scopes@);
    let mut all: Vec<CheckedCandidate> = Vec::new();
    let mut i: usize = 0;
    assert(candidates_view(all@) =~= Seq::empty());
    while i < scopes.len()
        invariant
            i <= scopes.len(),
            outer == scopes_view(scopes@),
            candidates_view(all@) == scoped_candidates(outer, name@, i as nat),
        decreases scopes.len() - i,
    {
        append_scope(&mut all, &scopes[i], name);
        i = i + 1;
    }
    append_scope(&mut all, current, name);
    let more = env_candidates(env, table, name);
    append_candidates(&mut all, &more);
    let ghost model = candidates_view(all@);
    let mut r: Vec<CheckedCandidate> = Vec::new();
    let mut k: usize = 0;
    assert(model.take(0) =~= Seq::empty());
    assert(candidates_view(r@) =~= Seq::empty());
    while k < all.len()
        invariant
            k <= all.len(),
            model == candidates_view(all@),
            candidates_view(r@) == first_of_each(model.take(k as int)),
        decreases all.len() - k,
    {
        let ghost so_far = candidates_view(r@);
        proof {
            assert(model.take(k + 1).drop_last() =~= model.take(k as int));
            assert(model.take(k + 1).last() == all@[k as int]@);
        }
        if !has_candidate_id(&r, all[k].id) {
            let item = all[k].clone();
            r.push(item);
            assert(candidates_view(r@) =~= so_far.push(item@));
        }
        k = k + 1;
    }
    assert(model.take(all.len() as int) =~= model);
    r
}

/// The candidates of a name where no scope is under construction.
pub open spec fn all_visible(
    env: SEnv,
    table: SBindings,
    scopes: Seq<SScope>,
    name: Seq<char>,
) -> Seq<SCandidate> {
    visible(env, table, scopes, Seq::empty(), name)
}

pub fn all_candidates(env: &Env, table: &Bindings, scopes: &Vec<CheckedScope>, name: &str) -> (r:
    Vec<CheckedCandidate>)
    ensures
        candidates_view(r@) == all_visible(env@, table@, scopes_view(scopes@), name@),
{
    let none: CheckedScope = Vec::new();
    assert(scope_view(none@) =~= Seq::empty());
    visible_candidates(env, table, scopes, &none, name)
}

/// Whether a candidate of this type is already visible, up to the names of its variables.
pub open spec fn already_visible(items: Seq<SCandidate>, t: SType) -> bool {
    exists|i: int|
        0 <= i < items.len() && canonical_text((#[trigger] items[i]).ty) == canonical_text(t)
}

/// The outcome of declaring a candidate: the table with its type recorded and the scope with the
/// candidate, or a duplicate.
#[verifier::opaque]
pub open spec fn declared(
    env: SEnv,
    table: SBindings,
    outer: Seq<SScope>,
    current: SScope,
    name: Seq<char>,
    candidate: SCandidate,
) -> (SBindings, Result<SScope, SError>) {
    if already_visible(visible(env, table, outer, current, name), candidate.ty) || collides(
        env,
        name,
        candidate.ty,
    ) {
        (
            table,
            type_error("duplicate visible overload "@ + name + ": "@ + type_text(candidate.ty)),
        )
    } else {
        (
            table.set_type(candidate.id, candidate.ty),
            Ok(with_key(current, name, scope_candidates(current, name).push(candidate), 0)),
        )
    }
}

pub fn insert_checked_candidate(
    env: &Env,
    table: &mut Bindings,
    outer: &Vec<CheckedScope>,
    current: &mut CheckedScope,
    name: &str,
    candidate: CheckedCandidate,
) -> (r: Result<(), MagError>)
    ensures
        ({
            let (t, x) = declared(
                env@,
                old(table)@,
                scopes_view(outer@),
                scope_view(old(current)@),
                name@,
                candidate@,
            );
            final(table)@ == t && match r {
                Ok(_) => x == Ok::<SScope, SError>(scope_view(final(current)@)),
                Err(e) => x == Err::<SScope, SError>(e@),
            }
        }),
{
    proof {
        reveal(declared);
    }
    let known = visible_candidates(env, table, outer, current, name);
    let ghost all = candidates_view(known@);
    let text = canonical_type(&candidate.ty);
    let mut taken = false;
    let mut i: usize = 0;
    while i < known.len()
        invariant
            i <= known.len(),
            all == candidates_view(known@),
            text@ == canonical_text(candidate.ty@),
            taken == exists|j: int|
                0 <= j < i && canonical_text((#[trigger] all[j]).ty) == text@,
        decreases known.len() - i,
    {
        if same(&canonical_type(&known[i].ty), &text) {
            assert(canonical_text(all[i as int].ty) == text@);
            taken = true;
        }
        i = i + 1;
    }
    if taken || collides_with_builtin(env, name, &candidate.ty) {
        return Err(
            MagError::Type(
                cat4("duplicate visible overload ", name, ": ", &candidate.ty.show()),
            ),
        );
    }
    let ghost model = candidate@;
    let ghost scope = scope_view(current@);
    table.set_binding_type(candidate.id, candidate.ty.clone());
    let label = name.to_owned();
    match scope_index(current, name) {
        Some(k) => {
            let mut items: Vec<CheckedCandidate> = Vec::new();
            assert(candidates_view(items@) =~= Seq::empty());
            append_candidates(&mut items, &current[k].1);
            let ghost before = candidates_view(items@);
            assert(before =~= scope_candidates(scope, name@));
            items.push(candidate);
            assert(candidates_view(items@) =~= before.push(model));
            current.set(k, (label, items));
            assert(scope_view(current@) =~= scope.update(k as int, (name@, before.push(model))));
        },
        None => {
            let items = vec![candidate];
            assert(candidates_view(items@) =~= Seq::<SCandidate>::empty().push(model));
            current.push((label, items));
            assert(scope_view(current@) =~= scope.push((name@, Seq::empty().push(model))));
        },
    }
    Ok(())
}

/// The identity of the builtin function of a name, from position `i` on.
pub open spec fn builtin_among(env: SEnv, ids: Seq<BindingId>, name: Seq<char>, i: nat) -> Option<
    BindingId,
>
    decreases ids.len() - i,
{
    if i >= ids.len() {
        None
    } else if env.ready(ids[i as int]) == Ok::<SValue, SError>(SValue::BuiltinFn(name)) {
        Some(ids[i as int])
    } else {
        builtin_among(env, ids, name, i + 1)
    }
}

#[verifier::opaque]
pub open spec fn builtin_of(env: SEnv, name: Seq<char>) -> Option<BindingId> {
    builtin_among(env, env.candidate_ids(name), name, 0)
}

pub fn builtin_id(env: &Env, name: &str) -> (r: Option<BindingId>)
    ensures
        r == builtin_of(env@, name@),
{
    proof {
        reveal(builtin_of);
    }
    let ids = env.lookup_candidate_ids(name);
    let mut i: usize = 0;
    while i < ids.len()
        invariant
            i <= ids.len(),
            ids@ == env@.candidate_ids(name@),
            builtin_of(env@, name@) == builtin_among(env@, ids@, name@, i as nat),
        decreases ids.len() - i,
    {
        match env.ready_binding(ids[i]) {
            Ok(Value::BuiltinFn(builtin)) => {
                if same(&builtin, name) {
                    return Some(ids[i]);
                }
            },
            _ => {},
        }
        i = i + 1;
    }
    None
}

/// The types of some candidates added to those of a name, each once.
pub open spec fn types_with(known: Seq<SType>, items: Seq<SCandidate>) -> Seq<SType>
    decreases items.len(),
{
    if items.len() == 0 {
        known
    } else {
        let rest = types_with(known, items.drop_last());
        if rest.contains(items.last().ty) {
            rest
        } else {
            rest.push(items.last().ty)
        }
    }
}

/// The locals with the first `n` names of a scope.
pub open spec fn locals_with(locals: SLocals, scope: SScope, n: nat) -> SLocals
    decreases n,
{
    if n == 0 {
        locals
    } else {
        let before = locals_with(locals, scope, (n - 1) as nat);
        let known = match keyed(before, scope[n - 1].0, 0) {
            Some(t) => t,
            None => Seq::empty(),
        };
        with_key(before, scope[n - 1].0, types_with(known, scope[n - 1].1), 0)
    }
}

pub open spec fn locals_within(scopes: Seq<SScope>, n: nat) -> SLocals
    decreases n,
{
    if n == 0 {
        Seq::empty()
    } else {
        locals_with(locals_within(scopes, (n - 1) as nat), scopes[n - 1], scopes[n - 1].len())
    }
}

/// The types of the names that scopes bind.
#[verifier::opaque]
pub open spec fn scope_locals(scopes: Seq<SScope>, current: SScope) -> SLocals {
    locals_with(locals_within(scopes, scopes.len()), current, current.len())
}

fn local_position(locals: &Locals, name: &str) -> (r: Option<usize>)
    ensures
        match r {
            Some(i) => {
                &&& i < locals@.len()
                &&& keyed(locals_view(locals@), name@, 0) == Some(types_view(locals@[i as int].1@))
                &&& forall|v: Seq<SType>|
                    with_key(locals_view(locals@), name@, v, 0) == locals_view(locals@).update(
                        i as int,
                        (name@, v),
                    )
            },
            None => {
                &&& keyed(locals_view(locals@), name@, 0) is None
                &&& forall|v: Seq<SType>|
                    with_key(locals_view(locals@), name@, v, 0) == locals_view(locals@).push(
                        (name@, v),
                    )
            },
        },
{
    let ghost all = locals_view(locals@);
    let mut i: usize = 0;
    while i < locals.len()
        invariant
            i <= locals.len(),
            all == locals_view(locals@),
            keyed(all, name@, 0) == keyed(all, name@, i as nat),
            forall|v: Seq<SType>| with_key(all, name@, v, 0) == with_key(all, name@, v, i as nat),
        decreases locals.len() - i,
    {
        if same(&locals[i].0, name) {
            return Some(i);
        }
        i = i + 1;
    }
    None
}

fn extend_types(types: &mut Vec<MagType>, items: &Vec<CheckedCandidate>)
    ensures
        types_view(final(types)@) == types_with(types_view(old(types)@), candidates_view(items@)),
{
    let ghost known = types_view(types@);
    let ghost all = candidates_view(items@);
    let mut i: usize = 0;
    assert(all.take(0) =~= Seq::empty());
    while i < items.len()
        invariant
            i <= items.len(),
            all == candidates_view(items@),
            types_view(types@) == types_with(known, all.take(i as int)),
        decreases items.len() - i,
    {
        let ghost so_far = types_view(types@);
        proof {
            assert(all.take(i + 1).drop_last() =~= all.take(i as int));
            assert(all.take(i + 1).last() == items@[i as int]@);
        }
        if !has_type(types, &items[i].ty) {
            let t = items[i].ty.clone();
            types.push(t);
            assert(types_view(types@) =~= so_far.push(t@));
        }
        i = i + 1;
    }
    assert(all.take(items.len() as int) =~= all);
}

fn extend_locals(locals: &mut Locals, scope: &CheckedScope)
    ensures
        locals_view(final(locals)@) == locals_with(
            locals_view(old(locals)@),
            scope_view(scope@),
            scope@.len(),
        ),
{
    let ghost first = locals_view(locals@);
    let ghost model = scope_view(scope@);
    let mut i: usize = 0;
    while i < scope.len()
        invariant
            i <= scope.len(),
            model == scope_view(scope@),
            locals_view(locals@) == locals_with(first, model, i as nat),
        decreases scope.len() - i,
    {
        let ghost so_far = locals_view(locals@);
        let name = scope[i].0.as_str();
        assert(model[i as int] == (name@, candidates_view(scope@[i as int].1@)));
        match local_position(locals, name) {
            Some(k) => {
                let mut types = clone_types(&locals[k].1);
                extend_types(&mut types, &scope[i].1);
                let label = name.to_owned();
                let ghost added = types_view(types@);
                locals.set(k, (label, types));
                assert(locals_view(locals@) =~= so_far.update(k as int, (name@, added)));
            },
            None => {
                let mut types: Vec<MagType> = Vec::new();
                assert(types_view(types@) =~= Seq::empty());
                extend_types(&mut types, &scope[i].1);
                let label = name.to_owned();
                let ghost added = types_view(types@);
                locals.push((label, types));
                assert(locals_view(locals@) =~= so_far.push((name@, added)));
            },
        }
        i = i + 1;
    }
}

/// The types of the names that scopes bind.
pub fn visible_types(scopes: &Vec<CheckedScope>, current: &CheckedScope) -> (r: Locals)
    ensures
        locals_view(r@) == scope_locals(scopes_view(scopes@), scope_view(current@)),
{
    proof {
        reveal(scope_locals);
    }
    let ghost outer = scopes_view(scopes@);
    let mut r: Locals = Vec::new();
    let mut i: usize = 0;
    assert(locals_view(r@) =~= Seq::empty());
    while i < scopes.len()
        invariant
            i <= scopes.len(),
            outer == scopes_view(scopes@),
            locals_view(r@) == locals_within(outer, i as nat),
        decreases scopes.len() - i,
    {
        extend_locals(&mut r, &scopes[i]);
        i = i + 1;
    }
    extend_locals(&mut r, current);
    r
}

/// Whether a candidate of a scope brings a name into scope as a type variable.
pub open spec fn contributes(scope: SScope, n: Seq<char>) -> bool {
    exists|i: int, j: int|
        0 <= i < scope.len() && 0 <= j < scope[i].1.len() && contributes_at(
            #[trigger] scope[i].1[j],
            n,
        )
}

pub open spec fn contributes_at(c: SCandidate, n: Seq<char>) -> bool {
    c.contributes_type_vars && vars(c.ty).contains(n)
}

/// The type variables that scopes bind.
#[verifier::opaque]
pub open spec fn scope_vars(scopes: Seq<SScope>) -> Set<Seq<char>> {
    Set::new(|n: Seq<char>| some_contributes(scopes, n))
}

pub open spec fn some_contributes(scopes: Seq<SScope>, n: Seq<char>) -> bool {
    exists|k: int| 0 <= k < scopes.len() && contributes(#[trigger] scopes[k], n)
}

fn collect_scope_vars(scope: &CheckedScope, out: &mut NameSet)
    ensures
        forall|n: Seq<char>| #[trigger]
            final(out)@.contains(n) <==> (old(out)@.contains(n) || contributes(
                scope_view(scope@),
                n,
            )),
{
    let ghost all = scope_view(scope@);
    let mut i: usize = 0;
    while i < scope.len()
        invariant
            i <= scope.len(),
            all == scope_view(scope@),
            forall|n: Seq<char>| #[trigger]
                out@.contains(n) ==> old(out)@.contains(n) || contributes(all, n),
            forall|n: Seq<char>| old(out)@.contains(n) ==> #[trigger] out@.contains(n),
            forall|k: int, j: int, n: Seq<char>|
                0 <= k < i && 0 <= j < all[k].1.len() && contributes_at(#[trigger] all[k].1[j], n)
                    ==> #[trigger] out@.contains(n),
        decreases scope.len() - i,
    {
        let mut j: usize = 0;
        assert(all[i as int].1 == candidates_view(scope@[i as int].1@));
        while j < scope[i].1.len()
            invariant
                i < scope.len(),
                j <= scope@[i as int].1@.len(),
                all == scope_view(scope@),
                all[i as int].1 == candidates_view(scope@[i as int].1@),
                forall|n: Seq<char>| #[trigger]
                    out@.contains(n) ==> old(out)@.contains(n) || contributes(all, n),
                forall|n: Seq<char>| old(out)@.contains(n) ==> #[trigger] out@.contains(n),
                forall|k: int, l: int, n: Seq<char>|
                    0 <= k < i && 0 <= l < all[k].1.len() && contributes_at(
                        #[trigger] all[k].1[l],
                        n,
                    ) ==> #[trigger] out@.contains(n),
                forall|l: int, n: Seq<char>|
                    0 <= l < j && contributes_at(#[trigger] all[i as int].1[l], n)
                        ==> #[trigger] out@.contains(n),
            decreases scope@[i as int].1@.len() - j,
        {
            proof {
                assert(all[i as int].1[j as int] == scope@[i as int].1@[j as int]@);
            }
            if scope[i].1[j].contributes_type_vars {
                collect_vars(&scope[i].1[j].ty, out);
            }
            j = j + 1;
        }
        i = i + 1;
    }
    assert forall|n: Seq<char>| #[trigger] out@.contains(n) <==> (old(out)@.contains(n)
        || contributes(scope_view(scope@), n)) by {
        if contributes(all, n) {
            let (k, j) = choose|k: int, j: int|
                0 <= k < all.len() && 0 <= j < all[k].1.len() && contributes_at(
                    #[trigger] all[k].1[j],
                    n,
                );
            assert(out@.contains(n));
        }
    }
}

pub fn visible_type_variables(scopes: &Vec<CheckedScope>) -> (r: NameSet)
    ensures
        r@ == scope_vars(scopes_view(scopes@)),
{
    let ghost all = scopes_view(scopes@);
    let mut r = NameSet::new();
    let mut i: usize = 0;
    while i < scopes.len()
        invariant
            i <= scopes.len(),
            all == scopes_view(scopes@),
            forall|n: Seq<char>| #[trigger] r@.contains(n) ==> some_contributes(all, n),
            forall|k: int, n: Seq<char>|
                0 <= k < i && contributes(#[trigger] all[k], n) ==> #[trigger] r@.contains(n),
        decreases scopes.len() - i,
    {
        assert(all[i as int] == scope_view(scopes@[i as int]@));
        collect_scope_vars(&scopes[i], &mut r);
        i = i + 1;
    }
    proof {
        reveal(scope_vars);
        assert forall|n: Seq<char>| r@.contains(n) <==> some_contributes(all, n) by {
            if some_contributes(all, n) {
                let k = choose|k: int| 0 <= k < all.len() && contributes(#[trigger] all[k], n);
                assert(r@.contains(n));
            }
        }
        assert(r@ =~= scope_vars(all));
    }
    r
}

/// The variable that stands for a binder in one use of a binding.
pub open spec fn fresh_name(id: BindingId, index: nat) -> Seq<char> {
    "\0binding"@ + decimal(id.0 as nat) + "."@ + decimal(index)
}

/// What stands for the first `n` binders in one use of a binding.
pub open spec fn fresh_binders(id: BindingId, binders: Seq<Seq<char>>, n: nat) -> Map<
    Seq<char>,
    SType,
>
    decreases n,
{
    if n == 0 {
        Map::empty()
    } else {
        fresh_binders(id, binders, (n - 1) as nat).insert(
            binders[n - 1],
            SType::Var(fresh_name(id, (n - 1) as nat)),
        )
    }
}

/// The variables that stand for binders in one use of a binding: of two binders with one name,
/// that of the later.
pub open spec fn fresh_vars(id: BindingId, binders: Seq<Seq<char>>) -> Set<Seq<char>> {
    Set::new(|n: Seq<char>| stands_for_binder(id, binders, n))
}

pub open spec fn stands_for_binder(id: BindingId, binders: Seq<Seq<char>>, n: Seq<char>) -> bool {
    exists|b: Seq<char>|
        #![trigger fresh_binders(id, binders, binders.len()).dom().contains(b)]
        fresh_binders(id, binders, binders.len()).dom().contains(b) && fresh_binders(
            id,
            binders,
            binders.len(),
        )[b] == SType::Var(n)
}

#[verifier::opaque]
pub open spec fn instance(c: SCandidate) -> SType {
    apply(c.ty, fresh_binders(c.id, c.generic_binders, c.generic_binders.len()))
}

#[verifier::opaque]
pub open spec fn instance_vars(c: SCandidate) -> Set<Seq<char>> {
    fresh_vars(c.id, c.generic_binders)
}

fn bind_fresh(id: BindingId, binders: &Vec<String>) -> (r: Substitution)
    ensures
        r@ == fresh_binders(id, strings(binders@), binders@.len()),
{
    let mut r = Substitution::new();
    let mut i: usize = 0;
    while i < binders.len()
        invariant
            i <= binders.len(),
            r@ == fresh_binders(id, strings(binders@), i as nat),
        decreases binders.len() - i,
    {
        let name = cat4("\0binding", &show_u64(id.0), ".", &show_usize(i));
        r.insert(&binders[i], MagType::Var(name));
        i = i + 1;
    }
    r
}

pub fn instantiate_candidate(candidate: &CheckedCandidate) -> (r: (MagType, NameSet))
    ensures
        r.0@ == instance(candidate@),
        r.1@ == instance_vars(candidate@),
{
    proof {
        reveal(instance);
        reveal(instance_vars);
    }
    let m = bind_fresh(candidate.id, &candidate.generic_binders);
    let binders = &candidate.generic_binders;
    let ghost names = strings(binders@);
    let mut bindable = NameSet::new();
    let mut i: usize = 0;
    while i < binders.len()
        invariant
            i <= binders.len(),
            names == strings(binders@),
            m@ == fresh_binders(candidate.id, names, names.len()),
            forall|n: Seq<char>| #[trigger]
                bindable@.contains(n) ==> stands_for_binder(candidate.id, names, n),
            forall|j: int, n: Seq<char>|
                0 <= j < i && m@.dom().contains(#[trigger] names[j]) && m@[names[j]] == SType::Var(
                    n,
                ) ==> #[trigger] bindable@.contains(n),
        decreases binders.len() - i,
    {
        let ghost before = bindable@;
        assert(names[i as int] == binders@[i as int]@);
        match m.get(&binders[i]) {
            Some(MagType::Var(name)) => {
                proof {
                    assert(m@.dom().contains(names[i as int]));
                    assert(m@[names[i as int]] == SType::Var(name@));
                    assert(stands_for_binder(candidate.id, names, name@));
                }
                bindable.insert(name);
            },
            _ => {},
        }
        i = i + 1;
    }
    proof {
        assert forall|n: Seq<char>| bindable@.contains(n) <==> stands_for_binder(
            candidate.id,
            names,
            n,
        ) by {
            if stands_for_binder(candidate.id, names, n) {
                let b = choose|b: Seq<char>|
                    #![trigger fresh_binders(candidate.id, names, names.len()).dom().contains(b)]
                    fresh_binders(candidate.id, names, names.len()).dom().contains(b)
                        && fresh_binders(candidate.id, names, names.len())[b] == SType::Var(n);
                fresh_domain(candidate.id, names, names.len(), b);
                let j = choose|j: int| 0 <= j < names.len() && names[j] == b;
                assert(m@.dom().contains(names[j]));
            }
        }
        assert(bindable@ =~= fresh_vars(candidate.id, names));
    }
    (substitute(&candidate.ty, &m), bindable)
}

proof fn fresh_domain(id: BindingId, binders: Seq<Seq<char>>, n: nat, b: Seq<char>)
    requires
        n <= binders.len(),
        fresh_binders(id, binders, n).dom().contains(b),
    ensures
        exists|j: int| 0 <= j < n && binders[j] == b,
    decreases n,
{
    if n > 0 {
        if binders[n - 1] != b {
            fresh_domain(id, binders, (n - 1) as nat, b);
        }
    }
}

/// The equality requirements of a binding: those recorded, else those of the ready function.
#[verifier::opaque]
pub open spec fn requirement_names(env: SEnv, table: SBindings, id: BindingId) -> Seq<Seq<char>> {
    let recorded = table.equality_of(id);
    if recorded.len() == 0 {
        match env.ready(id) {
            Ok(SValue::Fn(f)) => f.equality_params,
            _ => recorded,
        }
    } else {
        recorded
    }
}

pub fn binding_requirement_names(env: &Env, table: &Bindings, id: BindingId) -> (r: Vec<String>)
    ensures
        strings(r@) == requirement_names(env@, table@, id),
{
    proof {
        reveal(requirement_names);
    }
    let recorded = table.equality_requirements(id);
    assert(strings(recorded@).len() == recorded@.len());
    if recorded.len() == 0 {
        match env.ready_binding(id) {
            Ok(Value::Fn(f)) => clone_names(&f.equality_params),
            _ => recorded,
        }
    } else {
        recorded
    }
}

/// Each name as a type variable.
pub open spec fn as_vars(names: Seq<Seq<char>>) -> Seq<SType> {
    Seq::new(names.len(), |i: int| SType::Var(names[i]))
}

pub fn name_vars(names: &Vec<String>) -> (r: Vec<MagType>)
    ensures
        types_view(r@) == as_vars(strings(names@)),
{
    let mut r: Vec<MagType> = Vec::new();
    let mut i: usize = 0;
    while i < names.len()
        invariant
            i <= names.len(),
            r.len() == i,
            forall|j: int| 0 <= j < i ==> (#[trigger] r@[j])@ == SType::Var(names@[j]@),
        decreases names.len() - i,
    {
        r.push(MagType::Var(names[i].clone()));
        i = i + 1;
    }
    assert(types_view(r@) =~= as_vars(strings(names@)));
    r
}

/// The equality requirements of one use of a binding.
#[verifier::opaque]
pub open spec fn instance_requirements(env: SEnv, table: SBindings, c: SCandidate) -> Seq<SType> {
    crate::substitution::apply_all(
        as_vars(requirement_names(env, table, c.id)),
        fresh_binders(c.id, c.generic_binders, c.generic_binders.len()),
    )
}

pub fn instantiated_equality_requirements(
    env: &Env,
    table: &Bindings,
    candidate: &CheckedCandidate,
) -> (r: Vec<MagType>)
    ensures
        types_view(r@) == instance_requirements(env@, table@, candidate@),
{
    proof {
        reveal(instance_requirements);
    }
    let m = bind_fresh(candidate.id, &candidate.generic_binders);
    let names = binding_requirement_names(env, table, candidate.id);
    crate::substitution::substitute_all(&name_vars(&names), &m)
}

/// The equality requirements of a binding at one type.
#[verifier::opaque]
pub open spec fn resolved_requirements(
    env: SEnv,
    table: SBindings,
    id: BindingId,
    resolved: SType,
) -> Seq<SType> {
    let requirements = as_vars(requirement_names(env, table, id));
    match table.type_of(id) {
        None => requirements,
        Some(original) => {
            let (subst, r) = fit_binding(env, resolved, original, Map::empty(), vars(original));
            match r {
                Err(_) => requirements,
                Ok(_) => crate::substitution::apply_all(requirements, subst),
            }
        },
    }
}

pub fn resolved_binding_requirements(
    env: &Env,
    table: &Bindings,
    id: BindingId,
    resolved: &MagType,
) -> (r: Vec<MagType>)
    ensures
        types_view(r@) == resolved_requirements(env@, table@, id, resolved@),
{
    proof {
        reveal(resolved_requirements);
    }
    let requirements = name_vars(&binding_requirement_names(env, table, id));
    let original = match table.binding_type(id) {
        Some(t) => t,
        None => {
            return requirements;
        },
    };
    let mut variables = NameSet::new();
    collect_vars(&original, &mut variables);
    assert(variables@ =~= vars(original@));
    let mut subst = Substitution::new();
    match compatible_with_bindable(env, resolved, &original, &mut subst, &variables) {
        Err(_) => requirements,
        Ok(_) => crate::substitution::substitute_all(&requirements, &subst),
    }
}

} // verus!
