//! A scope in which nothing waits to be initialized stays as it is while expressions are evaluated:
//! they bind names in scopes of their own, fill what waits in others, and leave the scopes in force
//! that they found. What a scope in force holds is not reclaimed.

use vstd::prelude::*;

use crate::ast::{BindingId, FrameId, SArm, SBlock, SChecked, SFn, SKind, SParam, SValue};
use crate::bindings::SBindings;
use crate::callbacks::{
    filter_rule, filtered, flat_map_rule, flattened, fold_rule, folded, indexed, indexed_rule,
    items_of, map_rule, mapped, sort_rule, sorted_by, with_keyed, Applier,
};
use crate::collection::{collected, kept_frame, reachable, reached, rooted};
use crate::compatible::SSubst;
use crate::env::{keyed, keyed_with_key, with_key, BindingHandle, SEnv, SForce, SFrame, SSlot};
use crate::error::SError;
use crate::eval::{
    all_evaluated, applied, applier, arm_at, ascribed, bindings_forced, block_rule, builtin_rule,
    call_checked, call_entered, call_evaluated, call_settled, chosen, constructed, entered_rule,
    evaluated, evaluator, fields_evaluated, forced_rule, form_rule, function_rule, last_evaluated,
    match_evaluated, params_bound, slots_declared, Evaluator, NESTED_OPERATIONS,
};
use crate::files::{data_rule, read_rule, SFiles};
use crate::frames::{
    defined, other_than, released, released_all, retained, retained_all,
};
use crate::json::with_member;
use crate::modules::{all_defined, all_offered, bound_types, declarations};
use crate::types::SType;
use crate::values::{bare, is_true};
use crate::world::{swept, SWorld};

verus! {

broadcast use vstd::seq_lib::group_seq_properties;

/// Whether nothing waits in a frame.
pub open spec fn all_ready(f: SFrame) -> bool {
    forall|i: int| 0 <= i < f.slots.len() ==> (#[trigger] f.slots[i]).1 is Ready
}

/// How many scopes hold a frame.
pub open spec fn root_count(roots: Seq<(FrameId, u64)>, at: FrameId) -> nat {
    match keyed(roots, at, 0) {
        Some(n) => n as nat,
        None => 0,
    }
}

/// Whether a frame of an environment, in which nothing waits, is held by some scope.
pub open spec fn settled_in(env: SEnv, at: FrameId, held: SFrame) -> bool {
    &&& env.frame(at) == Some(held)
    &&& all_ready(held)
    &&& at.0 < env.next_frame
    &&& root_count(env.roots, at) > 0
    &&& env.scopes.len() > 0
}

/// Whether as many scopes hold a frame as before, or more than can be counted.
pub open spec fn still_held(before: nat, after: nat) -> bool {
    after == before || after == u64::MAX
}

/// Whether a frame that was settled is as it was, with the same scopes in force.
pub open spec fn undisturbed(a: SEnv, b: SEnv, at: FrameId, held: SFrame) -> bool {
    &&& settled_in(b, at, held)
    &&& b.scopes == a.scopes
    &&& still_held(root_count(a.roots, at), root_count(b.roots, at))
}

/// Whether what succeeds leaves a settled frame as it was.
pub open spec fn holds<T>(
    w: SWorld,
    a: (SWorld, Result<T, SError>),
    at: FrameId,
    held: SFrame,
) -> bool {
    a.1 is Ok ==> undisturbed(w.env, a.0.env, at, held)
}

pub open spec fn evaluator_holds(ev: Evaluator, at: FrameId, held: SFrame) -> bool {
    forall|w: SWorld, e: SChecked|
        settled_in(w.env, at, held) ==> holds(w, #[trigger] ev(w, e), at, held)
}

pub open spec fn applier_holds(ap: Applier, at: FrameId, held: SFrame) -> bool {
    forall|w: SWorld, v: SValue, args: Seq<SValue>, t: Option<SType>|
        settled_in(w.env, at, held) ==> holds(w, #[trigger] ap(w, v, args, t), at, held)
}

pub proof fn keyed_is_among<K, V>(items: Seq<(K, V)>, key: K, i: nat) -> (k: int)
    requires
        keyed(items, key, i) is Some,
    ensures
        i <= k < items.len(),
        items[k] == (key, keyed(items, key, i)->Some_0),
    decreases items.len() - i,
{
    if items[i as int].0 == key {
        i as int
    } else {
        keyed_is_among(items, key, i + 1)
    }
}

pub proof fn keyed_in_filtered<V>(
    items: Seq<(FrameId, V)>,
    keep: spec_fn((FrameId, V)) -> bool,
    at: FrameId,
)
    requires
        forall|v: V| #[trigger] keep((at, v)),
    ensures
        keyed(items.filter(keep), at, 0) == keyed(items, at, 0),
    decreases items.len(),
{
    reveal(Seq::filter);
    if items.len() > 0 {
        let rest = items.drop_last();
        let last = items.last();
        keyed_in_filtered(rest, keep, at);
        assert(items =~= rest.push(last));
        keyed_of_push(rest, last, at, 0);
        if keep(last) {
            keyed_of_push(rest.filter(keep), last, at, 0);
        } else {
            assert(last == (last.0, last.1));
            assert(last.0 != at);
        }
    }
}

pub proof fn keyed_of_push<K, V>(items: Seq<(K, V)>, last: (K, V), key: K, i: nat)
    requires
        i <= items.len(),
    ensures
        keyed(items.push(last), key, i) == match keyed(items, key, i) {
            Some(v) => Some(v),
            None => if last.0 == key {
                Some(last.1)
            } else {
                None
            },
        },
    decreases items.len() - i,
{
    if i < items.len() {
        assert(items.push(last)[i as int] == items[i as int]);
        keyed_of_push(items, last, key, i + 1);
    } else {
        assert(items.push(last)[i as int] == last);
        assert(keyed(items.push(last), key, i + 1) is None);
    }
}

proof fn retained_counts(roots: Seq<(FrameId, u64)>, id: FrameId, at: FrameId)
    ensures
        root_count(retained(roots, id), at) == if id == at {
            if root_count(roots, at) == u64::MAX {
                u64::MAX as nat
            } else {
                root_count(roots, at) + 1
            }
        } else {
            root_count(roots, at)
        },
{
    let n = match keyed(roots, id, 0) {
        Some(n) => crate::frames::after(n),
        None => 1,
    };
    keyed_with_key(roots, id, n, at, 0);
}

proof fn released_counts(roots: Seq<(FrameId, u64)>, id: FrameId, at: FrameId)
    requires
        root_count(roots, at) > 1 || id != at,
    ensures
        root_count(released(roots, id), at) == if id == at && root_count(roots, at) != u64::MAX {
            (root_count(roots, at) - 1) as nat
        } else {
            root_count(roots, at)
        },
{
    match keyed(roots, id, 0) {
        Some(n) => {
            if n > 1 && n != u64::MAX {
                keyed_with_key(roots, id, (n - 1) as u64, at, 0);
            } else if n <= 1 {
                keyed_in_filtered(roots, other_than(id), at);
            }
        },
        None => {},
    }
}

/// How often a frame is among some.
pub open spec fn times(ids: Seq<FrameId>, at: FrameId) -> nat
    decreases ids.len(),
{
    if ids.len() == 0 {
        0
    } else {
        times(ids.drop_last(), at) + if ids.last() == at {
            1nat
        } else {
            0nat
        }
    }
}

/// A count once there are more, as far as can be counted.
pub open spec fn more(n: nat, k: nat) -> nat {
    if n + k >= u64::MAX {
        u64::MAX as nat
    } else {
        n + k
    }
}

proof fn retained_all_counts(roots: Seq<(FrameId, u64)>, ids: Seq<FrameId>, at: FrameId)
    ensures
        root_count(retained_all(roots, ids), at) == more(root_count(roots, at), times(ids, at)),
    decreases ids.len(),
{
    if ids.len() > 0 {
        retained_all_counts(roots, ids.drop_last(), at);
        retained_counts(retained_all(roots, ids.drop_last()), ids.last(), at);
    }
}

proof fn released_all_counts(roots: Seq<(FrameId, u64)>, ids: Seq<FrameId>, at: FrameId)
    requires
        root_count(roots, at) > times(ids, at) || root_count(roots, at) == u64::MAX,
    ensures
        root_count(released_all(roots, ids), at) == if root_count(roots, at) == u64::MAX {
            u64::MAX as nat
        } else {
            (root_count(roots, at) - times(ids, at)) as nat
        },
    decreases ids.len(),
{
    if ids.len() > 0 {
        released_all_counts(roots, ids.drop_last(), at);
        released_counts(released_all(roots, ids.drop_last()), ids.last(), at);
    }
}

proof fn new_frame_is_another(env: SEnv, at: FrameId, held: SFrame)
    requires
        settled_in(env, at, held),
    ensures
        FrameId(env.next_frame) != at,
        env.with_frame().frame(at) == Some(held),
        at.0 < env.with_frame().next_frame,
        root_count(env.with_frame().roots, at) == root_count(env.roots, at),
{
    keyed_with_key(env.frames, FrameId(env.next_frame), SFrame::empty(), at, 0);
    retained_counts(env.roots, FrameId(env.next_frame), at);
}

/// Binding a name in another scope leaves a frame as it was.
proof fn readied_elsewhere(
    env: SEnv,
    id: BindingId,
    name: Seq<char>,
    v: SValue,
    at: FrameId,
    held: SFrame,
)
    requires
        settled_in(env, at, held),
        env.scopes.last() != at,
    ensures
        undisturbed(env, env.readied(id, name, v), at, held),
{
    reveal(SEnv::readied);
    match env.frame(env.scopes.last()) {
        Some(f) => {
            keyed_with_key(env.frames, env.scopes.last(), f.readied(id, name, v), at, 0);
        },
        None => {},
    }
}

proof fn defined_elsewhere(
    env: SEnv,
    table: SBindings,
    items: Seq<(Seq<char>, SValue)>,
    at: FrameId,
    held: SFrame,
)
    requires
        settled_in(env, at, held),
        env.scopes.last() != at,
    ensures
        undisturbed(env, all_defined(env, table, items).0, at, held),
        undisturbed(env, all_offered(env, table, items).0, at, held),
    decreases items.len(),
{
    reveal(all_defined);
    reveal(all_offered);
    reveal(defined);
    if items.len() > 0 {
        let (name, v) = items[0];
        readied_elsewhere(env, BindingId(table.next), name, v, at, held);
        let (e, t) = defined(env, table, name, v);
        defined_elsewhere(e, t, items.drop_first(), at, held);
        defined_elsewhere(env, table, items.drop_first(), at, held);
    }
}

proof fn bound_elsewhere(
    env: SEnv,
    params: Seq<SParam>,
    args: Seq<SValue>,
    i: nat,
    at: FrameId,
    held: SFrame,
)
    requires
        settled_in(env, at, held),
        env.scopes.last() != at,
    ensures
        undisturbed(env, params_bound(env, params, args, i), at, held),
    decreases params.len() - i,
{
    if i < params.len() && i < args.len() {
        let p = params[i as int];
        readied_elsewhere(env, p.id, p.name, args[i as int], at, held);
        let next = env.readied(p.id, p.name, args[i as int]);
        bound_elsewhere(next, params, args, i + 1, at, held);
    }
}

proof fn slots_elsewhere(env: SEnv, block: SBlock, i: nat, at: FrameId, held: SFrame)
    requires
        settled_in(env, at, held),
        env.scopes.last() != at,
    ensures
        undisturbed(env, slots_declared(env, block, i).0, at, held),
    decreases block.bindings.len() - i,
{
    reveal(SEnv::declared);
    if i < block.bindings.len() {
        let b = block.bindings[i as int];
        match env.declared(b.id, b.name, b.initializer) {
            Ok(e) => {
                let f = env.frame(env.scopes.last())->Some_0;
                keyed_with_key(
                    env.frames,
                    env.scopes.last(),
                    f.named(b.name, b.id).slotted(b.id, SSlot::Uninitialized(b.initializer)),
                    at,
                    0,
                );
                slots_elsewhere(e, block, i + 1, at, held);
            },
            Err(_) => {},
        }
    }
}

proof fn sweeping_holds(w: SWorld, extra: Seq<SValue>, at: FrameId, held: SFrame)
    requires
        settled_in(w.env, at, held),
    ensures
        undisturbed(w.env, swept(w, extra).env, at, held),
{
    reveal(swept);
    reveal(collected);
    let roots = extra + crate::world::module_values(w.modules.loaded) + crate::world::memo_values(
        w.memos,
    );
    let keep = kept_frame(w.env, roots);
    assert(rooted(w.env, roots, at));
    assert(reached(w.env, roots, at, 0));
    assert(reachable(w.env, roots, at));
    assert forall|f: SFrame| #[trigger] keep((at, f)) by {}
    keyed_in_filtered(w.env.frames, keep, at);
}

proof fn all_hold(
    w: SWorld,
    items: Seq<SChecked>,
    ev: Evaluator,
    done: Seq<SValue>,
    at: FrameId,
    held: SFrame,
)
    requires
        settled_in(w.env, at, held),
        evaluator_holds(ev, at, held),
    ensures
        holds(w, all_evaluated(w, items, ev, done), at, held),
    decreases items.len() - done.len(),
{
    if done.len() < items.len() {
        let (w1, r) = ev(w, items[done.len() as int]);
        if r is Ok {
            all_hold(w1, items, ev, done.push(r->Ok_0), at, held);
        }
    }
}

proof fn fields_hold(
    w: SWorld,
    items: Seq<(Seq<char>, SChecked)>,
    ev: Evaluator,
    i: nat,
    done: Seq<(Seq<char>, SValue)>,
    at: FrameId,
    held: SFrame,
)
    requires
        settled_in(w.env, at, held),
        evaluator_holds(ev, at, held),
    ensures
        holds(w, fields_evaluated(w, items, ev, i, done), at, held),
    decreases items.len() - i,
{
    if i < items.len() {
        let (w1, r) = ev(w, items[i as int].1);
        if r is Ok {
            let next = with_member(done, items[i as int].0, r->Ok_0);
            fields_hold(w1, items, ev, i + 1, next, at, held);
        }
    }
}

proof fn slot_elsewhere(env: SEnv, h: BindingHandle, slot: SSlot, at: FrameId, held: SFrame)
    requires
        settled_in(env, at, held),
        h.frame != at,
    ensures
        undisturbed(env, env.with_slot(h, slot), at, held),
{
    match env.frame(h.frame) {
        Some(f) => {
            keyed_with_key(
                env.frames,
                h.frame,
                SFrame { slots: with_key(f.slots, h.id, slot, 0), ..f },
                at,
                0,
            );
        },
        None => {},
    }
}

proof fn forcing_holds(w: SWorld, id: BindingId, ev: Evaluator, at: FrameId, held: SFrame)
    requires
        settled_in(w.env, at, held),
        evaluator_holds(ev, at, held),
    ensures
        holds(w, forced_rule(w, id, ev), at, held),
{
    reveal(forced_rule);
    reveal(SWorld::forcing);
    reveal(SEnv::begun);
    reveal(SEnv::settled);
    match w.env.home(id) {
        None => {},
        Some(frame) => match w.forcing(frame, id) {
            Err(_) => {},
            Ok(w1) => {
                let h = w1.env.handle(id, frame);
                if frame == at {
                    if keyed(held.slots, id, 0) is Some {
                        let k = keyed_is_among(held.slots, id, 0);
                        assert(held.slots[k].1 is Ready);
                    }
                } else {
                    let (env, force) = w1.env.begun(h);
                    match force {
                        Ok(SForce::Initialize(_, init)) => {
                            let w2 = w1.with_env(env);
                            slot_elsewhere(w1.env, h, SSlot::Initializing, at, held);
                            let (w3, r) = ev(w2, init);
                            if r is Ok {
                                slot_elsewhere(w3.env, h, SSlot::Ready(r->Ok_0), at, held);
                            }
                        },
                        _ => {},
                    }
                }
            },
        },
    }
}

proof fn match_holds(
    w: SWorld,
    value: SChecked,
    arms: Seq<SArm>,
    ev: Evaluator,
    at: FrameId,
    held: SFrame,
)
    requires
        settled_in(w.env, at, held),
        evaluator_holds(ev, at, held),
    ensures
        holds(w, match_evaluated(w, value, arms, ev), at, held),
{
    reveal(match_evaluated);
    let (w1, r) = ev(w, value);
    if r is Ok {
        match bare(r->Ok_0) {
            SValue::Adt(_, id, payload) => match arm_at(arms, id, 0) {
                Some(arm) => {
                    let inner = w1.env.pushed();
                    new_frame_is_another(w1.env, at, held);
                    readied_elsewhere(
                        inner,
                        arm.binding.id,
                        arm.binding.name,
                        *payload,
                        at,
                        held,
                    );
                    let bound = inner.readied(arm.binding.id, arm.binding.name, *payload);
                    let (w2, out) = ev(w1.with_env(bound), *arm.body);
                    if out is Ok {
                        assert(w2.env.scopes == inner.scopes);
                        assert(inner.scopes.drop_last() =~= w1.env.scopes);
                        released_counts(w2.env.roots, inner.scopes.last(), at);
                    }
                },
                None => {},
            },
            _ => {},
        }
    }
}

proof fn call_holds(
    w: SWorld,
    callee: SChecked,
    args: Seq<SChecked>,
    ev: Evaluator,
    ap: Applier,
    at: FrameId,
    held: SFrame,
)
    requires
        settled_in(w.env, at, held),
        evaluator_holds(ev, at, held),
        applier_holds(ap, at, held),
    ensures
        holds(w, call_evaluated(w, callee, args, ev, ap), at, held),
{
    reveal(call_evaluated);
    let (w1, r) = ev(w, callee);
    if r is Ok {
        all_hold(w1, args, ev, Seq::empty(), at, held);
    }
}

proof fn form_holds(w: SWorld, e: SChecked, ev: Evaluator, ap: Applier, at: FrameId, held: SFrame)
    requires
        settled_in(w.env, at, held),
        evaluator_holds(ev, at, held),
        applier_holds(ap, at, held),
    ensures
        holds(w, form_rule(w, e, ev, ap), at, held),
{
    reveal(form_rule);
    match e.kind {
        SKind::BindingRef(id) => {
            forcing_holds(w, id, ev, at, held);
        },
        SKind::Vector(items) => {
            all_hold(w, items, ev, Seq::empty(), at, held);
        },
        SKind::Fields(items) => {
            fields_hold(w, items, ev, 0, Seq::empty(), at, held);
        },
        SKind::If(_, _, _) => {
            reveal(chosen);
        },
        SKind::Construct(_, _, _) => {
            reveal(constructed);
        },
        SKind::Match(value, arms) => {
            match_holds(w, *value, arms, ev, at, held);
        },
        SKind::Call(callee, args) => {
            call_holds(w, *callee, args, ev, ap, at, held);
        },
        SKind::Ascribe(_, _) => {
            reveal(ascribed);
        },
        _ => {},
    }
}

proof fn bindings_hold(w: SWorld, block: SBlock, ev: Evaluator, i: nat, at: FrameId, held: SFrame)
    requires
        settled_in(w.env, at, held),
        evaluator_holds(ev, at, held),
    ensures
        holds(w, bindings_forced(w, block, ev, i), at, held),
    decreases block.bindings.len() - i,
{
    if i < block.bindings.len() {
        let id = block.bindings[i as int].id;
        forcing_holds(w, id, ev, at, held);
        let (w1, r) = forced_rule(w, id, ev);
        if r is Ok {
            bindings_hold(w1, block, ev, i + 1, at, held);
        }
    }
}

proof fn last_holds(
    w: SWorld,
    items: Seq<SChecked>,
    ev: Evaluator,
    i: nat,
    last: SValue,
    at: FrameId,
    held: SFrame,
)
    requires
        settled_in(w.env, at, held),
        evaluator_holds(ev, at, held),
    ensures
        holds(w, last_evaluated(w, items, ev, i, last), at, held),
    decreases items.len() - i,
{
    if i < items.len() {
        let (w1, r) = ev(w, items[i as int]);
        if r is Ok {
            last_holds(w1, items, ev, i + 1, r->Ok_0, at, held);
        }
    }
}

pub proof fn block_holds(w: SWorld, block: SBlock, ev: Evaluator, at: FrameId, held: SFrame)
    requires
        settled_in(w.env, at, held),
        w.env.scopes.last() != at,
        evaluator_holds(ev, at, held),
    ensures
        holds(w, block_rule(w, block, ev), at, held),
{
    reveal(block_rule);
    slots_elsewhere(w.env, block, 0, at, held);
    let w1 = w.with_env(slots_declared(w.env, block, 0).0);
    bindings_hold(w1, block, ev, 0, at, held);
    let (w2, r) = bindings_forced(w1, block, ev, 0);
    if r is Ok {
        last_holds(w2, block.expressions, ev, 0, SValue::Unit, at, held);
    }
}

/// The scopes of a call: those that the function closes over and a new one, which all hold their
/// frames.
proof fn call_scopes_hold(env: SEnv, closure: Seq<FrameId>, at: FrameId, held: SFrame)
    requires
        settled_in(env, at, held),
    ensures
        settled_in(env.call_scoped(closure), at, held),
        env.call_scoped(closure).scopes.drop_last() == closure,
        env.call_scoped(closure).scopes.len() == closure.len() + 1,
        env.call_scoped(closure).scopes.last() != at,
        root_count(env.call_scoped(closure).roots, at) == more(
            root_count(env.roots, at),
            times(closure, at),
        ),
{
    reveal(SEnv::call_scoped);
    new_frame_is_another(env, at, held);
    let new = FrameId(env.next_frame);
    let first = SEnv { scopes: seq![new], ..env.with_frame() };
    assert(first.scopes.drop_last() =~= Seq::empty());
    assert(times(first.scopes, at) == 0) by {
        assert(times(first.scopes.drop_last(), at) == 0);
    }
    released_all_counts(first.roots, first.scopes, at);
    retained_all_counts(released_all(first.roots, first.scopes), closure, at);
    let second = first.rescoped(closure);
    keyed_with_key(second.frames, FrameId(second.next_frame), SFrame::empty(), at, 0);
    retained_counts(second.roots, FrameId(second.next_frame), at);
    assert(second.pushed().scopes.drop_last() =~= closure);
}

/// The environment of a caller once a call is over.
proof fn caller_scopes_hold(
    env: SEnv,
    closure: Seq<FrameId>,
    scopes: Seq<FrameId>,
    at: FrameId,
    held: SFrame,
    count: nat,
)
    requires
        settled_in(env, at, held),
        env.scopes.drop_last() == closure,
        env.scopes.last() != at,
        count > 0,
        still_held(more(count, times(closure, at)), root_count(env.roots, at)),
        scopes.len() > 0,
    ensures
        settled_in(env.call_unscoped(scopes), at, held),
        env.call_unscoped(scopes).scopes == scopes,
        still_held(count, root_count(env.call_unscoped(scopes).roots, at)),
{
    reveal(SEnv::call_unscoped);
    assert(times(env.scopes, at) == times(closure, at));
    released_all_counts(env.roots, env.scopes, at);
}

pub proof fn call_entering_holds(
    w: SWorld,
    fun: SFn,
    args: Seq<SValue>,
    subst: SSubst,
    at: FrameId,
    held: SFrame,
)
    requires
        settled_in(w.env, at, held),
    ensures
        settled_in(call_entered(w, fun, args, subst).env, at, held),
        call_entered(w, fun, args, subst).env.scopes.drop_last() == fun.closure,
        call_entered(w, fun, args, subst).env.scopes.last() != at,
        still_held(
            more(root_count(w.env.roots, at), times(fun.closure, at)),
            root_count(call_entered(w, fun, args, subst).env.roots, at),
        ),
{
    reveal(call_entered);
    let start = w.env.call_scoped(fun.closure);
    call_scopes_hold(w.env, fun.closure, at, held);
    let (e1, t1) = all_offered(start, w.table, declarations(w.env));
    let (e2, t2) = all_defined(e1, t1, bound_types(subst));
    defined_elsewhere(start, w.table, declarations(w.env), at, held);
    defined_elsewhere(e1, t1, bound_types(subst), at, held);
    bound_elsewhere(e2, fun.checked.params, args, 0, at, held);
}

proof fn function_holds(
    w: SWorld,
    fun: SFn,
    args: Seq<SValue>,
    signature: Option<SType>,
    ev: Evaluator,
    at: FrameId,
    held: SFrame,
)
    requires
        settled_in(w.env, at, held),
        evaluator_holds(ev, at, held),
    ensures
        holds(w, function_rule(w, fun, args, signature, ev), at, held),
{
    reveal(function_rule);
    reveal(call_checked);
    reveal(call_entered);
    reveal(call_settled);
    reveal(crate::eval::call_returned);
    reveal(swept);
    let (w1, checked) = call_checked(w, fun, args, signature);
    if checked is Ok {
        let subst = checked->Ok_0.1;
        call_entering_holds(w1, fun, args, subst, at, held);
        let inner = call_entered(w1, fun, args, subst);
        block_holds(inner, *fun.checked.body, ev, at, held);
        let (w2, out) = block_rule(inner, *fun.checked.body, ev);
        if out is Ok {
            caller_scopes_hold(
                w2.env,
                fun.closure,
                w1.env.scopes,
                at,
                held,
                root_count(w1.env.roots, at),
            );
            let w3 = w2.with_env(w2.env.call_unscoped(w1.env.scopes));
            let r = crate::eval::call_returned(w3.env, fun, out, checked->Ok_0.0);
            match r {
                Ok(v) => {
                    let w4 = SWorld {
                        memos: crate::memo::remembered(
                            w3.memos,
                            w3.limits.memoized_calls as nat,
                            fun,
                            signature,
                            args,
                            v,
                        ),
                        forgot: w3.forgot || crate::memo::forgets(
                            w3.memos,
                            w3.limits.memoized_calls as nat,
                            args,
                        ),
                        ..w3
                    };
                    sweeping_holds(w4, seq![SValue::Fn(fun)] + args + seq![v], at, held);
                },
                Err(_) => {},
            }
        }
    }
}

proof fn mapping_holds(
    w: SWorld,
    f: SValue,
    items: Seq<SValue>,
    ap: Applier,
    done: Seq<SValue>,
    at: FrameId,
    held: SFrame,
)
    requires
        settled_in(w.env, at, held),
        applier_holds(ap, at, held),
    ensures
        holds(w, mapped(w, f, items, ap, done), at, held),
        holds(w, indexed(w, f, items, ap, done), at, held),
    decreases items.len() - done.len(),
{
    if done.len() < items.len() {
        let (w1, r) = ap(w, f, seq![items[done.len() as int]], None);
        if r is Ok {
            mapping_holds(w1, f, items, ap, done.push(r->Ok_0), at, held);
        }
        let (w2, s) = ap(
            w,
            f,
            seq![SValue::Int(done.len() as i64), items[done.len() as int]],
            None,
        );
        if s is Ok {
            mapping_holds(w2, f, items, ap, done.push(s->Ok_0), at, held);
        }
    }
}

proof fn filtering_holds(
    w: SWorld,
    f: SValue,
    items: Seq<SValue>,
    ap: Applier,
    i: nat,
    done: Seq<SValue>,
    at: FrameId,
    held: SFrame,
)
    requires
        settled_in(w.env, at, held),
        applier_holds(ap, at, held),
    ensures
        holds(w, filtered(w, f, items, ap, i, done), at, held),
        holds(w, flattened(w, f, items, ap, i, done), at, held),
    decreases items.len() - i,
{
    if i < items.len() {
        let (w1, r) = ap(w, f, seq![items[i as int]], None);
        if r is Ok {
            let next = if is_true(r->Ok_0) {
                done.push(items[i as int])
            } else {
                done
            };
            filtering_holds(w1, f, items, ap, i + 1, next, at, held);
            match items_of("flat-map"@, r->Ok_0) {
                Ok(more) => {
                    filtering_holds(w1, f, items, ap, i + 1, done + more, at, held);
                },
                Err(_) => {},
            }
        }
    }
}

proof fn folding_holds(
    w: SWorld,
    f: SValue,
    acc: SValue,
    items: Seq<SValue>,
    ap: Applier,
    i: nat,
    at: FrameId,
    held: SFrame,
)
    requires
        settled_in(w.env, at, held),
        applier_holds(ap, at, held),
    ensures
        holds(w, folded(w, f, acc, items, ap, i), at, held),
    decreases items.len() - i,
{
    if i < items.len() {
        let (w1, r) = ap(w, f, seq![acc, items[i as int]], None);
        if r is Ok {
            folding_holds(w1, f, r->Ok_0, items, ap, i + 1, at, held);
        }
    }
}

proof fn sorting_holds(
    w: SWorld,
    f: SValue,
    items: Seq<SValue>,
    ap: Applier,
    i: nat,
    done: Seq<(Seq<char>, SValue)>,
    at: FrameId,
    held: SFrame,
)
    requires
        settled_in(w.env, at, held),
        applier_holds(ap, at, held),
    ensures
        holds(w, sorted_by(w, f, items, ap, i, done), at, held),
    decreases items.len() - i,
{
    if i < items.len() {
        let (w1, r) = ap(w, f, seq![items[i as int]], None);
        if r is Ok {
            match crate::ast::string_of(r->Ok_0) {
                Some(key) => {
                    let next = with_keyed(done, key, items[i as int]);
                    sorting_holds(w1, f, items, ap, i + 1, next, at, held);
                },
                None => {},
            }
        }
    }
}

proof fn builtin_holds(
    files: SFiles,
    w: SWorld,
    name: Seq<char>,
    args: Seq<SValue>,
    ap: Applier,
    at: FrameId,
    held: SFrame,
)
    requires
        settled_in(w.env, at, held),
        applier_holds(ap, at, held),
    ensures
        holds(w, builtin_rule(files, w, name, args, ap), at, held),
{
    reveal(builtin_rule);
    reveal(map_rule);
    reveal(indexed_rule);
    reveal(filter_rule);
    reveal(flat_map_rule);
    reveal(fold_rule);
    reveal(sort_rule);
    reveal(read_rule);
    reveal(data_rule);
    if name == "map"@ {
        match items_of("map"@, args[1]) {
            Ok(items) => {
                mapping_holds(w, args[0], items, ap, Seq::empty(), at, held);
            },
            Err(_) => {},
        }
    } else if name == "indexed-map"@ {
        match items_of("indexed-map"@, args[1]) {
            Ok(items) => {
                mapping_holds(w, args[0], items, ap, Seq::empty(), at, held);
            },
            Err(_) => {},
        }
    } else if name == "filter"@ {
        match items_of("filter"@, args[1]) {
            Ok(items) => {
                filtering_holds(w, args[0], items, ap, 0, Seq::empty(), at, held);
            },
            Err(_) => {},
        }
    } else if name == "flat-map"@ {
        match items_of("flat-map"@, args[1]) {
            Ok(items) => {
                filtering_holds(w, args[0], items, ap, 0, Seq::empty(), at, held);
            },
            Err(_) => {},
        }
    } else if name == "fold"@ {
        match items_of("fold"@, args[2]) {
            Ok(items) => {
                folding_holds(w, args[0], args[1], items, ap, 0, at, held);
            },
            Err(_) => {},
        }
    } else if name == "sort-by"@ {
        match items_of("sort-by"@, args[1]) {
            Ok(items) => {
                sorting_holds(w, args[0], items, ap, 0, Seq::empty(), at, held);
            },
            Err(_) => {},
        }
    }
}

/// A settled frame is as it was, with the same scopes in force, once an expression has been
/// evaluated.
pub proof fn evaluation_holds(
    files: SFiles,
    w: SWorld,
    e: SChecked,
    depth: nat,
    calls: nat,
    at: FrameId,
    held: SFrame,
)
    requires
        settled_in(w.env, at, held),
    ensures
        holds(w, evaluated(files, w, e, depth, calls), at, held),
    decreases depth, 0nat, 1nat,
{
    if depth > 0 {
        let d = (depth - 1) as nat;
        let ev = evaluator(files, d, calls);
        let ap = applier(files, d, calls, NESTED_OPERATIONS as nat);
        evaluator_always_holds(files, d, calls, at, held);
        applier_always_holds(files, d, calls, NESTED_OPERATIONS as nat, at, held);
        reveal(entered_rule);
        let w1 = w.with_budget(w.budget.expr_entered());
        match w1.budget.stepped() {
            Ok(b) => {
                form_holds(w1.with_budget(b), e, ev, ap, at, held);
            },
            Err(_) => {},
        }
    }
}

pub proof fn evaluator_always_holds(
    files: SFiles,
    depth: nat,
    calls: nat,
    at: FrameId,
    held: SFrame,
)
    ensures
        evaluator_holds(evaluator(files, depth, calls), at, held),
    decreases depth, 0nat, 2nat,
{
    let ev = evaluator(files, depth, calls);
    assert forall|w: SWorld, e: SChecked| settled_in(w.env, at, held) implies holds(
        w,
        #[trigger] ev(w, e),
        at,
        held,
    ) by {
        evaluation_holds(files, w, e, depth, calls, at, held);
    }
}

proof fn application_holds(
    files: SFiles,
    w: SWorld,
    f: SValue,
    args: Seq<SValue>,
    signature: Option<SType>,
    depth: nat,
    calls: nat,
    hops: nat,
    at: FrameId,
    held: SFrame,
)
    requires
        settled_in(w.env, at, held),
    ensures
        holds(w, applied(files, w, f, args, signature, depth, calls, hops), at, held),
    decreases depth, hops + 1, 1nat,
{
    match f {
        SValue::Fn(fun) => {
            if calls > 0 {
                let c = (calls - 1) as nat;
                let w1 = w.with_budget(w.budget.call_entered());
                evaluator_always_holds(files, depth, c, at, held);
                function_holds(w1, fun, args, signature, evaluator(files, depth, c), at, held);
            }
        },
        SValue::BuiltinFn(name) => {
            if hops > 0 {
                let h = (hops - 1) as nat;
                applier_always_holds(files, depth, calls, h, at, held);
                builtin_holds(files, w, name, args, applier(files, depth, calls, h), at, held);
            }
        },
        _ => {},
    }
}

proof fn applier_always_holds(
    files: SFiles,
    depth: nat,
    calls: nat,
    hops: nat,
    at: FrameId,
    held: SFrame,
)
    ensures
        applier_holds(applier(files, depth, calls, hops), at, held),
    decreases depth, hops + 1, 2nat,
{
    let ap = applier(files, depth, calls, hops);
    assert forall|w: SWorld, v: SValue, args: Seq<SValue>, t: Option<SType>|
        settled_in(w.env, at, held) implies holds(
        w,
        #[trigger] ap(w, v, args, t),
        at,
        held,
    ) by {
        application_holds(files, w, v, args, t, depth, calls, hops, at, held);
    }
}

} // verus!
