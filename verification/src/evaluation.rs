//! What evaluation is for: how the value of an expression comes of the values of its parts, and what
//! names stand for while it runs.

use vstd::prelude::*;

use crate::ast::{
    BindingId, FrameId, SArm, SBlock, SChecked, SConstructorId, SFn, SKind, SParam, SValue,
};
use crate::bindings::SBindings;
use crate::compatible::SSubst;
use crate::conformance::realized;
use crate::documents::{ascends, putting_a_member_binds_its_name};
use crate::env::{keyed, keyed_with_key, SEnv, SForce, SFrame, SSlot};
use crate::error::SError;
use crate::eval::{
    all_evaluated, applied, applier, arm_at, bindings_forced, block_rule, call_entered,
    call_evaluated, chosen, constructed, entered_rule, evaluated, evaluator, fields_evaluated,
    forced_rule, form_rule, last_evaluated, match_evaluated, params_bound, slots_declared,
    Evaluator, NESTED_OPERATIONS,
};
use crate::files::SFiles;
use crate::frames::defined;
use crate::json::with_member;
use crate::modules::{all_defined, all_offered, already_among, bound_types, declarations};
use crate::types::SType;
use crate::values::{bare, is_true};
use crate::world::{initializing_at, SWorld};

verus! {

broadcast use vstd::seq_lib::group_seq_properties;

/// Whether a binding holds a value where it is looked up: in the innermost scope that has it.
pub open spec fn holds(env: SEnv, id: BindingId, v: SValue) -> bool {
    &&& env.home(id) is Some
    &&& env.slot(env.handle(id, env.home(id)->Some_0)) == Some(SSlot::Ready(v))
}

/// Whether an environment has a scope to bind names in.
pub open spec fn takes(env: SEnv) -> bool {
    env.scopes.len() > 0 && env.frame(env.scopes.last()) is Some
}

proof fn homes_agree(a: SEnv, b: SEnv, id: BindingId, n: nat)
    requires
        n <= a.scopes.len(),
        a.scopes == b.scopes,
        forall|f: FrameId|
            #![trigger a.frame(f)]
            #![trigger b.frame(f)]
            (a.frame(f) is Some <==> b.frame(f) is Some) && (a.frame(f) is Some ==> keyed(
                a.frame(f)->Some_0.slots,
                id,
                0,
            ) == keyed(b.frame(f)->Some_0.slots, id, 0)),
    ensures
        a.home_within(id, n) == b.home_within(id, n),
    decreases n,
{
    if n > 0 {
        homes_agree(a, b, id, (n - 1) as nat);
        let f = a.scopes[n - 1];
        assert(a.frame(f) is Some <==> b.frame(f) is Some);
    }
}

/// A name that is bound to a value stands for that value from then on, and every other binding for
/// what it stood for.
pub proof fn binding_makes_values_held(
    env: SEnv,
    id: BindingId,
    name: Seq<char>,
    v: SValue,
    other: BindingId,
    x: SValue,
)
    requires
        takes(env),
    ensures
        takes(env.readied(id, name, v)),
        holds(env.readied(id, name, v), id, v),
        other != id ==> (holds(env.readied(id, name, v), other, x) <==> holds(env, other, x)),
{
    reveal(SEnv::readied);
    reveal(SEnv::home);
    let top = env.scopes.last();
    let f = env.frame(top)->Some_0;
    let g = f.readied(id, name, v);
    let made = env.readied(id, name, v);
    assert forall|k: FrameId| #[trigger] made.frame(k) == if k == top {
        Some(g)
    } else {
        env.frame(k)
    } by {
        keyed_with_key(env.frames, top, g, k, 0);
    }
    assert forall|k: BindingId| #[trigger] keyed(g.slots, k, 0) == if k == id {
        Some(SSlot::Ready(v))
    } else {
        keyed(f.slots, k, 0)
    } by {
        keyed_with_key(f.slots, id, SSlot::Ready(v), k, 0);
    }
    assert(made.scopes == env.scopes);
    assert(made.frame(top) == Some(g));
    assert(made.home_within(id, made.scopes.len()) == Some(top));
    if other != id {
        homes_agree(made, env, other, env.scopes.len());
        if env.home(other) is Some {
            assert(made.frame(env.home(other)->Some_0) is Some || made.frame(
                env.home(other)->Some_0,
            ) is None);
        }
    }
}

/// A reference to a binding that holds a value gives that value, and changes nothing.
pub proof fn references_give_what_is_held(w: SWorld, id: BindingId, v: SValue, ev: Evaluator)
    requires
        holds(w.env, id, v),
        initializing_at(w.stack, w.env.home(id)->Some_0, id, 0) is None,
    ensures
        forced_rule(w, id, ev) == (w, Ok::<SValue, SError>(v)),
{
    reveal(forced_rule);
    reveal(SEnv::begun);
    reveal(SWorld::forcing);
    let frame = w.env.home(id)->Some_0;
    let w1 = w.stacked(frame, id, true);
    assert(w.forcing(frame, id) == Ok::<SWorld, SError>(w1));
    assert(w1.env == w.env);
    assert(w.env.begun(w.env.handle(id, frame)) == (w.env, Ok::<SForce, SError>(SForce::Ready(v))));
    assert(w1.with_env(w.env).unstacked().stack =~= w.stack);
    assert(w1.with_env(w.env).unstacked() =~= w);
}

proof fn defining_leaves_a_scope(env: SEnv, table: SBindings, name: Seq<char>, v: SValue)
    requires
        takes(env),
    ensures
        takes(defined(env, table, name, v).0),
{
    reveal(defined);
    let id = BindingId(table.next);
    binding_makes_values_held(env, id, name, v, id, v);
}

proof fn defining_all_leaves_a_scope(
    env: SEnv,
    table: SBindings,
    items: Seq<(Seq<char>, SValue)>,
)
    requires
        takes(env),
    ensures
        takes(all_defined(env, table, items).0),
    decreases items.len(),
{
    if items.len() > 0 {
        defining_leaves_a_scope(env, table, items[0].0, items[0].1);
        let (e, t) = defined(env, table, items[0].0, items[0].1);
        defining_all_leaves_a_scope(e, t, items.drop_first());
    }
}

proof fn offering_all_leaves_a_scope(
    env: SEnv,
    table: SBindings,
    items: Seq<(Seq<char>, SValue)>,
)
    requires
        takes(env),
    ensures
        takes(all_offered(env, table, items).0),
    decreases items.len(),
{
    if items.len() > 0 {
        let (name, v) = items[0];
        defining_leaves_a_scope(env, table, name, v);
        let (e, t) = if already_among(env.candidates(name), v) {
            (env, table)
        } else {
            defined(env, table, name, v)
        };
        offering_all_leaves_a_scope(e, t, items.drop_first());
    }
}

/// Whether no two parameters are the same binding.
pub open spec fn parameters_differ(params: Seq<SParam>) -> bool {
    forall|i: int, j: int|
        0 <= i < j < params.len() ==> (#[trigger] params[i]).id != (#[trigger] params[j]).id
}

proof fn bound_parameters_hold(
    env: SEnv,
    params: Seq<SParam>,
    args: Seq<SValue>,
    i: nat,
    k: int,
    v: SValue,
)
    requires
        takes(env),
        parameters_differ(params),
        params.len() == args.len(),
        0 <= k < params.len(),
        k < i ==> holds(env, params[k].id, v),
        k >= i ==> v == args[k],
    ensures
        holds(params_bound(env, params, args, i), params[k].id, v),
    decreases params.len() - i,
{
    if i < params.len() {
        let at = i as int;
        let p = params[at];
        binding_makes_values_held(env, p.id, p.name, args[at], params[k].id, v);
        let next = env.readied(p.id, p.name, args[at]);
        assert(k != at ==> params[k].id != p.id) by {
            if k < at {
                assert(params[k].id != params[at].id);
            } else if k > at {
                assert(params[at].id != params[k].id);
            }
        }
        bound_parameters_hold(next, params, args, i + 1, k, v);
    }
}

proof fn a_new_scope_takes(env: SEnv)
    ensures
        takes(env.pushed()),
{
    keyed_with_key(
        env.frames,
        FrameId(env.next_frame),
        SFrame::empty(),
        FrameId(env.next_frame),
        0,
    );
}

/// The body of a function runs where each parameter stands for the argument at its place.
pub proof fn parameters_stand_for_arguments(
    w: SWorld,
    f: SFn,
    args: Seq<SValue>,
    subst: SSubst,
    k: int,
)
    requires
        f.checked.params.len() == args.len(),
        parameters_differ(f.checked.params),
        0 <= k < args.len(),
    ensures
        holds(call_entered(w, f, args, subst).env, f.checked.params[k].id, args[k]),
{
    reveal(call_entered);
    reveal(SEnv::call_scoped);
    let scoped = w.env.call_scoped(f.closure);
    a_new_scope_takes(
        (SEnv { scopes: seq![FrameId(w.env.next_frame)], ..w.env.with_frame() }).rescoped(
            f.closure,
        ),
    );
    let items = declarations(w.env);
    offering_all_leaves_a_scope(scoped, w.table, items);
    let (e1, t1) = all_offered(scoped, w.table, items);
    defining_all_leaves_a_scope(e1, t1, bound_types(subst));
    let e2 = all_defined(e1, t1, bound_types(subst)).0;
    bound_parameters_hold(e2, f.checked.params, args, 0, k, args[k]);
}

/// Whether a part of an expression has a value in a world, one level below the expression.
pub open spec fn gives(
    files: SFiles,
    w: SWorld,
    e: SChecked,
    depth: nat,
    calls: nat,
    after: SWorld,
    v: SValue,
) -> bool {
    depth > 0 && evaluated(files, w, e, (depth - 1) as nat, calls) == (
        after,
        Ok::<SValue, SError>(v),
    )
}

/// The world in which the parts of an expression are evaluated: all but the budget is as it was.
pub open spec fn inside(w: SWorld) -> SWorld {
    w.with_budget(w.budget.expr_entered().stepped()->Ok_0)
}

proof fn forms_give(files: SFiles, w: SWorld, e: SChecked, depth: nat, calls: nat)
    requires
        evaluated(files, w, e, depth, calls).1 is Ok,
    ensures
        depth > 0,
        ({
            let ev = evaluator(files, (depth - 1) as nat, calls);
            let ap = applier(
                files,
                (depth - 1) as nat,
                calls,
                NESTED_OPERATIONS as nat,
            );
            let (w1, r) = form_rule(inside(w), e, ev, ap);
            evaluated(files, w, e, depth, calls) == (w1.with_budget(w1.budget.expr_left()), r)
        }),
{
    reveal(entered_rule);
    reveal_with_fuel(evaluated, 2);
}

/// A literal stands for what was written, and evaluating it changes nothing but the budget.
pub proof fn literals_stand_for_themselves(
    files: SFiles,
    w: SWorld,
    e: SChecked,
    depth: nat,
    calls: nat,
)
    ensures
        evaluated(files, w, e, depth, calls).1 matches Ok(v) ==> {
            &&& e.kind is Unit ==> v == SValue::Unit
            &&& e.kind matches SKind::Bool(b) ==> v == SValue::Bool(b)
            &&& e.kind matches SKind::Int(n) ==> v == SValue::Int(n)
            &&& e.kind matches SKind::Float(f) ==> v == SValue::Float(f)
            &&& e.kind matches SKind::Str(s) ==> v == SValue::Str(s)
            &&& e.kind matches SKind::Keyword(s) ==> v == SValue::Keyword(s)
        },
{
    if evaluated(files, w, e, depth, calls).1 is Ok {
        forms_give(files, w, e, depth, calls);
        reveal(form_rule);
    }
}

/// A conditional has the value of its first branch where its condition holds and of its second
/// where it does not; the other branch is not evaluated.
pub proof fn conditionals_follow_their_conditions(
    files: SFiles,
    w: SWorld,
    e: SChecked,
    depth: nat,
    calls: nat,
) -> (r: (SWorld, SValue, SWorld))
    requires
        e.kind is If,
        evaluated(files, w, e, depth, calls).1 is Ok,
    ensures
        gives(files, inside(w), *e.kind->If_0, depth, calls, r.0, r.1),
        is_true(r.1) ==> gives(
            files,
            r.0,
            *e.kind->If_1,
            depth,
            calls,
            r.2,
            evaluated(files, w, e, depth, calls).1->Ok_0,
        ),
        !is_true(r.1) ==> gives(
            files,
            r.0,
            *e.kind->If_2,
            depth,
            calls,
            r.2,
            evaluated(files, w, e, depth, calls).1->Ok_0,
        ),
{
    forms_give(files, w, e, depth, calls);
    reveal(form_rule);
    reveal(chosen);
    let ev = evaluator(files, (depth - 1) as nat, calls);
    let (w1, c) = ev(inside(w), *e.kind->If_0);
    let w2 = if is_true(c->Ok_0) {
        ev(w1, *e.kind->If_1).0
    } else {
        ev(w1, *e.kind->If_2).0
    };
    (w1, c->Ok_0, w2)
}

proof fn all_are_evaluated(
    files: SFiles,
    w: SWorld,
    items: Seq<SChecked>,
    depth: nat,
    calls: nat,
    done: Seq<SValue>,
) -> (worlds: Seq<SWorld>)
    requires
        depth > 0,
        done.len() <= items.len(),
        all_evaluated(w, items, evaluator(files, (depth - 1) as nat, calls), done).1 is Ok,
    ensures
        ({
            let ev = evaluator(files, (depth - 1) as nat, calls);
            let (last, r) = all_evaluated(w, items, ev, done);
            &&& r->Ok_0.len() == items.len()
            &&& forall|i: int| 0 <= i < done.len() ==> #[trigger] r->Ok_0[i] == done[i]
            &&& worlds.len() == items.len() - done.len() + 1
            &&& worlds[0] == w && worlds.last() == last
            &&& forall|k: int|
                0 <= k < items.len() - done.len() ==> gives(
                    files,
                    #[trigger] worlds[k],
                    items[done.len() + k],
                    depth,
                    calls,
                    worlds[k + 1],
                    r->Ok_0[done.len() + k],
                )
        }),
    decreases items.len() - done.len(),
{
    let ev = evaluator(files, (depth - 1) as nat, calls);
    if done.len() >= items.len() {
        seq![w]
    } else {
        let at = done.len() as int;
        let (w1, r) = ev(w, items[at]);
        let more = done.push(r->Ok_0);
        let rest = all_are_evaluated(files, w1, items, depth, calls, more);
        let worlds = seq![w] + rest;
        let out = all_evaluated(w, items, ev, done).1->Ok_0;
        assert(out[at] == more[at]);
        assert forall|i: int| 0 <= i < done.len() implies #[trigger] out[i] == done[i] by {
            assert(out[i] == more[i]);
        }
        assert forall|k: int| 0 <= k < items.len() - done.len() implies gives(
            files,
            #[trigger] worlds[k],
            items[at + k],
            depth,
            calls,
            worlds[k + 1],
            out[at + k],
        ) by {
            if k > 0 {
                assert(worlds[k] == rest[k - 1]);
                assert(gives(
                    files,
                    rest[k - 1],
                    items[more.len() + (k - 1)],
                    depth,
                    calls,
                    rest[k],
                    out[more.len() + (k - 1)],
                ));
            }
        }
        worlds
    }
}

/// A list has the values of its items in their order, each evaluated once after the one before.
pub proof fn lists_hold_the_values_of_their_items(
    files: SFiles,
    w: SWorld,
    e: SChecked,
    depth: nat,
    calls: nat,
) -> (worlds: Seq<SWorld>)
    requires
        e.kind is Vector,
        evaluated(files, w, e, depth, calls).1 is Ok,
    ensures
        ({
            let items = e.kind->Vector_0;
            let v = evaluated(files, w, e, depth, calls).1->Ok_0;
            &&& v is List && v->List_0.len() == items.len()
            &&& worlds.len() == items.len() + 1 && worlds[0] == inside(w)
            &&& forall|k: int|
                0 <= k < items.len() ==> gives(
                    files,
                    #[trigger] worlds[k],
                    items[k],
                    depth,
                    calls,
                    worlds[k + 1],
                    v->List_0[k],
                )
        }),
{
    forms_give(files, w, e, depth, calls);
    reveal(form_rule);
    let items = e.kind->Vector_0;
    let worlds = all_are_evaluated(files, inside(w), items, depth, calls, Seq::empty());
    let v = evaluated(files, w, e, depth, calls).1->Ok_0;
    assert forall|k: int| 0 <= k < items.len() implies gives(
        files,
        #[trigger] worlds[k],
        items[k],
        depth,
        calls,
        worlds[k + 1],
        v->List_0[k],
    ) by {
        let done: Seq<SValue> = Seq::empty();
        assert(items[done.len() + k] == items[k]);
    }
    worlds
}

/// Where the last of the fields of a name stands, among the first `n`.
pub open spec fn last_field(fields: Seq<(Seq<char>, SChecked)>, name: Seq<char>, n: nat) -> Option<
    int,
>
    decreases n,
{
    if n == 0 {
        None
    } else if fields[n - 1].0 == name {
        Some(n - 1)
    } else {
        last_field(fields, name, (n - 1) as nat)
    }
}

proof fn fields_are_evaluated(
    files: SFiles,
    w: SWorld,
    items: Seq<(Seq<char>, SChecked)>,
    depth: nat,
    calls: nat,
    i: nat,
    values: Seq<SValue>,
    done: Seq<(Seq<char>, SValue)>,
) -> (r: (Seq<SWorld>, Seq<SValue>))
    requires
        depth > 0,
        i <= items.len(),
        values.len() == i,
        ascends(done),
        forall|name: Seq<char>| #[trigger]
            keyed(done, name, 0) == match last_field(items, name, i) {
                Some(k) => Some(values[k]),
                None => None,
            },
        fields_evaluated(w, items, evaluator(files, (depth - 1) as nat, calls), i, done).1 is Ok,
    ensures
        ({
            let ev = evaluator(files, (depth - 1) as nat, calls);
            let v = fields_evaluated(w, items, ev, i, done).1->Ok_0;
            &&& v is Record && ascends(v->Record_0)
            &&& r.1.len() == items.len()
            &&& forall|k: int| 0 <= k < i ==> #[trigger] r.1[k] == values[k]
            &&& forall|name: Seq<char>| #[trigger]
                keyed(v->Record_0, name, 0) == match last_field(items, name, items.len()) {
                    Some(k) => Some(r.1[k]),
                    None => None,
                }
            &&& r.0.len() == items.len() - i + 1 && r.0[0] == w
            &&& forall|k: int|
                0 <= k < items.len() - i ==> gives(
                    files,
                    #[trigger] r.0[k],
                    items[i + k].1,
                    depth,
                    calls,
                    r.0[k + 1],
                    r.1[i + k],
                )
        }),
    decreases items.len() - i,
{
    let ev = evaluator(files, (depth - 1) as nat, calls);
    if i >= items.len() {
        (seq![w], values)
    } else {
        let at = i as int;
        let (w1, x) = ev(w, items[at].1);
        let v = x->Ok_0;
        let name = items[at].0;
        let next = with_member(done, name, v);
        let more = values.push(v);
        putting_a_member_binds_its_name(done, name, v);
        assert forall|n: Seq<char>| #[trigger] keyed(next, n, 0) == match last_field(
            items,
            n,
            i + 1,
        ) {
            Some(k) => Some(more[k]),
            None => None,
        } by {
            last_field_is_before(items, n, i);
            assert(keyed(done, n, 0) == match last_field(items, n, i) {
                Some(k) => Some(values[k]),
                None => None,
            });
        }
        let (rest, all) = fields_are_evaluated(files, w1, items, depth, calls, i + 1, more, next);
        let worlds = seq![w] + rest;
        assert(all[at] == more[at]);
        assert forall|k: int| 0 <= k < i implies #[trigger] all[k] == values[k] by {
            assert(all[k] == more[k]);
        }
        assert forall|k: int| 0 <= k < items.len() - i implies gives(
            files,
            #[trigger] worlds[k],
            items[at + k].1,
            depth,
            calls,
            worlds[k + 1],
            all[at + k],
        ) by {
            if k > 0 {
                assert(worlds[k] == rest[k - 1]);
                assert(gives(
                    files,
                    rest[k - 1],
                    items[(i + 1) + (k - 1)].1,
                    depth,
                    calls,
                    rest[k],
                    all[(i + 1) + (k - 1)],
                ));
            }
        }
        (worlds, all)
    }
}

proof fn last_field_is_before(fields: Seq<(Seq<char>, SChecked)>, name: Seq<char>, n: nat)
    ensures
        last_field(fields, name, n) matches Some(k) ==> 0 <= k < n && fields[k].0 == name,
    decreases n,
{
    if n > 0 {
        last_field_is_before(fields, name, (n - 1) as nat);
    }
}

/// A record binds each name to the value of its last field of that name, and binds no other; its
/// fields are evaluated in the order in which they were written, and stand in the order of names.
pub proof fn records_hold_the_values_of_their_fields(
    files: SFiles,
    w: SWorld,
    e: SChecked,
    depth: nat,
    calls: nat,
) -> (r: (Seq<SWorld>, Seq<SValue>))
    requires
        e.kind is Fields,
        evaluated(files, w, e, depth, calls).1 is Ok,
    ensures
        ({
            let items = e.kind->Fields_0;
            let v = evaluated(files, w, e, depth, calls).1->Ok_0;
            &&& v is Record && ascends(v->Record_0)
            &&& r.0.len() == items.len() + 1 && r.0[0] == inside(w) && r.1.len() == items.len()
            &&& forall|name: Seq<char>| #[trigger]
                keyed(v->Record_0, name, 0) == match last_field(items, name, items.len()) {
                    Some(k) => Some(r.1[k]),
                    None => None,
                }
            &&& forall|k: int|
                0 <= k < items.len() ==> gives(
                    files,
                    #[trigger] r.0[k],
                    items[k].1,
                    depth,
                    calls,
                    r.0[k + 1],
                    r.1[k],
                )
        }),
{
    forms_give(files, w, e, depth, calls);
    reveal(form_rule);
    let items = e.kind->Fields_0;
    let none: Seq<SValue> = Seq::empty();
    let r = fields_are_evaluated(files, inside(w), items, depth, calls, 0, none, Seq::empty());
    assert forall|k: int| 0 <= k < items.len() implies gives(
        files,
        #[trigger] r.0[k],
        items[k].1,
        depth,
        calls,
        r.0[k + 1],
        r.1[k],
    ) by {
        assert(items[0 + k] == items[k]);
    }
    r
}

proof fn arm_stands_at(arms: Seq<SArm>, id: SConstructorId, i: nat) -> (k: int)
    requires
        arm_at(arms, id, i) is Some,
    ensures
        i <= k < arms.len(),
        arm_at(arms, id, i) == Some(arms[k]),
        arms[k].constructor == id,
    decreases arms.len() - i,
{
    if arms[i as int].constructor == id {
        i as int
    } else {
        arm_stands_at(arms, id, i + 1)
    }
}

/// A match has the value of the arm for the constructor that the value was made with, evaluated
/// where the name of the arm stands for what that constructor holds.
pub proof fn matches_follow_their_constructors(
    files: SFiles,
    w: SWorld,
    e: SChecked,
    depth: nat,
    calls: nat,
) -> (r: (SWorld, SValue, int, SWorld, SWorld))
    requires
        e.kind is Match,
        evaluated(files, w, e, depth, calls).1 is Ok,
    ensures
        ({
            let arms = e.kind->Match_1;
            let v = evaluated(files, w, e, depth, calls).1->Ok_0;
            &&& gives(files, inside(w), *e.kind->Match_0, depth, calls, r.0, r.1)
            &&& bare(r.1) is Adt
            &&& 0 <= r.2 < arms.len() && arms[r.2].constructor == bare(r.1)->Adt_1
            &&& holds(r.3.env, arms[r.2].binding.id, *bare(r.1)->Adt_2)
            &&& gives(files, r.3, *arms[r.2].body, depth, calls, r.4, v)
        }),
{
    forms_give(files, w, e, depth, calls);
    reveal(form_rule);
    reveal(match_evaluated);
    let ev = evaluator(files, (depth - 1) as nat, calls);
    let arms = e.kind->Match_1;
    let (w1, x) = ev(inside(w), *e.kind->Match_0);
    let v = x->Ok_0;
    let payload = *bare(v)->Adt_2;
    let k = arm_stands_at(arms, bare(v)->Adt_1, 0);
    let b = arms[k].binding;
    a_new_scope_takes(w1.env);
    binding_makes_values_held(w1.env.pushed(), b.id, b.name, payload, b.id, payload);
    let w2 = w1.with_env(w1.env.pushed().readied(b.id, b.name, payload));
    (w1, v, k, w2, ev(w2, *arms[k].body).0)
}

/// A value of a declared type is made of the constructor that was written and of the value of what
/// was written inside it.
pub proof fn constructions_hold_their_payloads(
    files: SFiles,
    w: SWorld,
    e: SChecked,
    depth: nat,
    calls: nat,
) -> (r: (SWorld, SValue))
    requires
        e.kind is Construct,
        evaluated(files, w, e, depth, calls).1 is Ok,
    ensures
        ({
            let v = evaluated(files, w, e, depth, calls).1->Ok_0;
            &&& gives(files, inside(w), *e.kind->Construct_2, depth, calls, r.0, r.1)
            &&& v is Adt && v->Adt_1 == e.kind->Construct_1 && *v->Adt_2 == r.1
        }),
{
    forms_give(files, w, e, depth, calls);
    reveal(form_rule);
    reveal(constructed);
    let ev = evaluator(files, (depth - 1) as nat, calls);
    let (w1, x) = ev(inside(w), *e.kind->Construct_2);
    (w1, x->Ok_0)
}

/// A function closes over the scopes it stands in, and has an identity that no function had before.
pub proof fn functions_close_over_their_scopes(
    files: SFiles,
    w: SWorld,
    e: SChecked,
    depth: nat,
    calls: nat,
)
    requires
        e.kind is Function,
        evaluated(files, w, e, depth, calls).1 is Ok,
    ensures
        ({
            let f = e.kind->Function_0;
            let v = evaluated(files, w, e, depth, calls).1->Ok_0;
            &&& v is Fn && v->Fn_0.checked == f && v->Fn_0.closure == w.env.scopes
            &&& v->Fn_0.identity == w.next_function && v->Fn_0.name == f.name
            &&& v->Fn_0.params.len() == f.params.len()
            &&& w.next_function < u64::MAX ==> evaluated(
                files,
                w,
                e,
                depth,
                calls,
            ).0.next_function > w.next_function
        }),
{
    forms_give(files, w, e, depth, calls);
    reveal(form_rule);
}

/// What is called is evaluated first, then the arguments in their order; the call gives what
/// applying the one to the others gives.
pub proof fn calls_apply_values_to_values(
    files: SFiles,
    w: SWorld,
    e: SChecked,
    depth: nat,
    calls: nat,
) -> (r: (SWorld, SValue, Seq<SWorld>, Seq<SValue>, SWorld, Option<SType>))
    requires
        e.kind is Call,
        evaluated(files, w, e, depth, calls).1 is Ok,
    ensures
        ({
            let args = e.kind->Call_1;
            let v = evaluated(files, w, e, depth, calls).1->Ok_0;
            &&& gives(files, inside(w), *e.kind->Call_0, depth, calls, r.0, r.1)
            &&& r.2.len() == args.len() + 1 && r.2[0] == r.0 && r.3.len() == args.len()
            &&& forall|k: int|
                0 <= k < args.len() ==> gives(
                    files,
                    #[trigger] r.2[k],
                    args[k],
                    depth,
                    calls,
                    r.2[k + 1],
                    r.3[k],
                )
            &&& r.4.env == r.2.last().env
            &&& applied(
                files,
                r.4,
                r.1,
                r.3,
                r.5,
                (depth - 1) as nat,
                calls,
                NESTED_OPERATIONS as nat,
            ).1 == Ok::<SValue, SError>(v)
        }),
{
    forms_give(files, w, e, depth, calls);
    reveal(form_rule);
    reveal(call_evaluated);
    let ev = evaluator(files, (depth - 1) as nat, calls);
    let callee = *e.kind->Call_0;
    let args = e.kind->Call_1;
    let (w1, x) = ev(inside(w), callee);
    let (w2, vs) = all_evaluated(w1, args, ev, Seq::empty());
    let worlds = all_are_evaluated(files, w1, args, depth, calls, Seq::empty());
    let values = vs->Ok_0;
    assert forall|k: int| 0 <= k < args.len() implies gives(
        files,
        #[trigger] worlds[k],
        args[k],
        depth,
        calls,
        worlds[k + 1],
        values[k],
    ) by {
        let done: Seq<SValue> = Seq::empty();
        assert(args[done.len() + k] == args[k]);
    }
    let w3 = match callee.kind {
        SKind::BindingRef(id) => if w2.stack.len() > 0 && w2.env.home(id) is Some {
            w2.stacked(w2.env.home(id)->Some_0, id, false)
        } else {
            w2
        },
        _ => w2,
    };
    (
        w1,
        x->Ok_0,
        worlds,
        values,
        w3,
        Some(realized(w3.env, callee.ty)),
    )
}

proof fn last_is_evaluated(
    files: SFiles,
    w: SWorld,
    items: Seq<SChecked>,
    depth: nat,
    calls: nat,
    i: nat,
    last: SValue,
) -> (r: (SWorld, SWorld))
    requires
        i < items.len(),
        last_evaluated(w, items, evaluator(files, depth, calls), i, last).1 is Ok,
    ensures
        evaluated(files, r.0, items.last(), depth, calls) == (
            r.1,
            last_evaluated(w, items, evaluator(files, depth, calls), i, last).1,
        ),
    decreases items.len() - i,
{
    reveal_with_fuel(last_evaluated, 2);
    let ev = evaluator(files, depth, calls);
    let (w1, x) = ev(w, items[i as int]);
    if i + 1 < items.len() {
        last_is_evaluated(files, w1, items, depth, calls, i + 1, x->Ok_0)
    } else {
        (w, w1)
    }
}

/// A block has the value of its last expression, or unit where it has none.
pub proof fn blocks_have_the_value_of_their_last_expression(
    files: SFiles,
    w: SWorld,
    block: SBlock,
    depth: nat,
    calls: nat,
) -> (r: (SWorld, SWorld))
    requires
        block_rule(w, block, evaluator(files, depth, calls)).1 is Ok,
    ensures
        block.expressions.len() == 0 ==> block_rule(w, block, evaluator(files, depth, calls)).1
            == Ok::<SValue, SError>(SValue::Unit),
        block.expressions.len() > 0 ==> evaluated(
            files,
            r.0,
            block.expressions.last(),
            depth,
            calls,
        ) == (r.1, block_rule(w, block, evaluator(files, depth, calls)).1),
{
    reveal(block_rule);
    let ev = evaluator(files, depth, calls);
    let w1 = w.with_env(slots_declared(w.env, block, 0).0);
    let w2 = bindings_forced(w1, block, ev, 0).0;
    if block.expressions.len() > 0 {
        last_is_evaluated(files, w2, block.expressions, depth, calls, 0, SValue::Unit)
    } else {
        (w2, w2)
    }
}

} // verus!
