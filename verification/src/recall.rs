//! Bindings keep the values that they were given, and calls that are recalled give what calls came
//! to. While expressions are evaluated, a binding that is ready stays as it is for as long as its
//! frame is held; and each result that is remembered is one to which a function of the same identity
//! came, on the same arguments, when its body was evaluated in an earlier world, whose ready
//! bindings have the values that they had then.

use vstd::prelude::*;

use crate::ast::{BindingId, FrameId, SArm, SBlock, SChecked, SFn, SKind, SParam, SValue};
use crate::authored::{SForm, SItem};
use crate::bindings::SBindings;
use crate::callbacks::{
    filter_rule, filtered, flat_map_rule, flattened, fold_rule, folded, indexed, indexed_rule,
    items_of, map_rule, mapped, sort_rule, sorted_by, with_keyed, Applier,
};
use crate::collection::{collected, kept_frame};
use crate::compile::block_made;
use crate::compatible::SSubst;
use crate::conformance::realized;
use crate::env::{keyed, keyed_with_key, with_key, BindingHandle, SEnv, SForce, SFrame, SSlot};
use crate::error::SError;
use crate::eval::{
    all_evaluated, applied, applier, arm_at, ascribed, bindings_forced, block_rule, builtin_rule,
    call_checked, call_entered, call_evaluated, call_returned, call_settled, chosen, constructed,
    entered_rule, evaluated, evaluator, fields_evaluated, forced_rule, form_rule, function_rule,
    last_evaluated, left, match_evaluated, params_bound, slots_declared, Evaluator,
    NESTED_OPERATIONS,
};
use crate::files::{data_rule, read_rule, SFiles};
use crate::frames::defined;
use crate::holding::keyed_in_filtered;
use crate::identities::{block_goes_on, call_goes_on, goes_on};
use crate::json::{with_member, SJson};
use crate::limits::CompilerLimits;
use crate::memo::{
    all_rememberable, forgets, memo_at, recalled, remembered, same_arguments, same_call, SMemo,
};
use crate::modules::{
    all_defined, all_offered, base_definitions, bound_types, declarations, exports, fresh,
    qualified_as,
};
use crate::program::{
    all_installed, block_run, compiled_cold, declared_rule, declared_value, loader, module_entered,
    module_loaded, nesting_limit, one_installed, program_run, required, required_rule, runner,
    type_declared, Loader, Runner, SLibrary, SModuleAnswer, SProgram,
};
use crate::types::SType;
use crate::values::{bare, is_true};
use crate::world::{new_world, swept, SWorld};

verus! {

broadcast use vstd::seq_lib::group_seq_properties;

/// Whether what is ready in a frame is so, with the same values, in another.
pub open spec fn slots_keep(f: SFrame, g: SFrame) -> bool {
    forall|id: BindingId|
        (#[trigger] keyed(f.slots, id, 0)) matches Some(SSlot::Ready(v)) ==> keyed(g.slots, id, 0)
            == Some(SSlot::Ready(v))
}

/// Whether a frame that an environment has is, as far as it is ready, what it was in an earlier
/// one.
pub open spec fn frame_keeps(a: SEnv, b: SEnv, at: FrameId) -> bool {
    at.0 < a.next_frame && b.frame(at) is Some ==> a.frame(at) is Some && slots_keep(
        a.frame(at)->Some_0,
        b.frame(at)->Some_0,
    )
}

/// Whether an environment comes of another: the frames that it still has of it keep the values of
/// their bindings.
#[verifier::opaque]
pub open spec fn grows(a: SEnv, b: SEnv) -> bool {
    &&& a.next_frame <= b.next_frame
    &&& forall|at: FrameId| #[trigger] frame_keeps(a, b, at)
}

/// Whether what is ready in a frame under identities below some is so, with the same values, in
/// another.
pub open spec fn slots_last(n: u64, f: SFrame, g: SFrame) -> bool {
    forall|id: BindingId|
        id.0 < n && ((#[trigger] keyed(f.slots, id, 0)) matches Some(SSlot::Ready(_))) ==> keyed(
            g.slots,
            id,
            0,
        ) == keyed(f.slots, id, 0)
}

pub open spec fn frame_lasts(w: SWorld, x: SWorld, at: FrameId) -> bool {
    at.0 < w.env.next_frame && x.env.frame(at) is Some ==> w.env.frame(at) is Some && slots_last(
        w.table.next,
        w.env.frame(at)->Some_0,
        x.env.frame(at)->Some_0,
    )
}

/// Whether a world comes of another: the frames that it still has of it keep the values of the
/// bindings whose identities had been given out.
#[verifier::opaque]
pub open spec fn lasts(w: SWorld, x: SWorld) -> bool {
    &&& w.env.next_frame <= x.env.next_frame
    &&& w.table.next <= x.table.next
    &&& forall|at: FrameId| #[trigger] frame_lasts(w, x, at)
}

/// Whether a call, made in a world in which nothing like it was remembered, came to a result by the
/// evaluation of its body.
pub open spec fn comes_to(
    files: SFiles,
    w: SWorld,
    f: SFn,
    args: Seq<SValue>,
    signature: Option<SType>,
    depth: nat,
    calls: nat,
    result: SValue,
) -> bool {
    &&& recalled(w.memos, f, signature, args) is None
    &&& function_rule(w, f, args, signature, evaluator(files, depth, calls)).1 == Ok::<
        SValue,
        SError,
    >(result)
}

/// Whether a call is the one that is remembered, or cannot be told from it.
pub open spec fn is_call_of(m: SMemo, f: SFn, args: Seq<SValue>) -> bool {
    m.function.identity == f.identity && (m.args == args || same_arguments(m.args, args))
}

/// Whether what is remembered of a call is what it came to, in a world of which another comes.
pub open spec fn earned(files: SFiles, x: SWorld, m: SMemo) -> bool {
    exists|w: SWorld, f: SFn, args: Seq<SValue>, depth: nat, calls: nat|
        lasts(w, x) && is_call_of(m, f, args) && #[trigger] comes_to(
            files,
            w,
            f,
            args,
            m.signature,
            depth,
            calls,
            m.result,
        )
}

#[verifier::opaque]
pub open spec fn all_earned(files: SFiles, x: SWorld, memos: Seq<SMemo>) -> bool {
    forall|i: int| 0 <= i < memos.len() ==> earned(files, x, #[trigger] memos[i])
}

/// Whether a world comes of another with all ready bindings as they were, and remembers what was
/// earned where the other does.
pub open spec fn advances(files: SFiles, w: SWorld, x: SWorld) -> bool {
    &&& grows(w.env, x.env)
    &&& goes_on(w.table, x.table)
    &&& all_earned(files, w, w.memos) ==> all_earned(files, x, x.memos)
}

/// Whether a world comes of another, and remembers what was earned where the other does.
pub open spec fn progresses(files: SFiles, w: SWorld, x: SWorld) -> bool {
    &&& lasts(w, x)
    &&& all_earned(files, w, w.memos) ==> all_earned(files, x, x.memos)
}

pub open spec fn evaluator_advances(files: SFiles, ev: Evaluator) -> bool {
    forall|w: SWorld, e: SChecked| advances(files, w, (#[trigger] ev(w, e)).0)
}

pub open spec fn applier_advances(files: SFiles, ap: Applier) -> bool {
    forall|w: SWorld, v: SValue, args: Seq<SValue>, t: Option<SType>|
        advances(files, w, (#[trigger] ap(w, v, args, t)).0)
}

/// An environment with the frames of another comes of it.
proof fn same_frames_grow(a: SEnv, b: SEnv)
    requires
        a.frames == b.frames,
        a.next_frame == b.next_frame,
    ensures
        grows(a, b),
{
    reveal(grows);
}

proof fn growth_goes_on(a: SEnv, b: SEnv, c: SEnv)
    requires
        grows(a, b),
        grows(b, c),
    ensures
        grows(a, c),
{
    reveal(grows);
    assert forall|at: FrameId| #[trigger] frame_keeps(a, c, at) by {
        assert(frame_keeps(a, b, at));
        assert(frame_keeps(b, c, at));
    }
}

proof fn growth_lasts(w: SWorld, x: SWorld)
    requires
        grows(w.env, x.env),
        goes_on(w.table, x.table),
    ensures
        lasts(w, x),
{
    reveal(grows);
    reveal(lasts);
    assert forall|at: FrameId| #[trigger] frame_lasts(w, x, at) by {
        assert(frame_keeps(w.env, x.env, at));
    }
}

proof fn lasting_goes_on(w: SWorld, x: SWorld, y: SWorld)
    requires
        lasts(w, x),
        lasts(x, y),
    ensures
        lasts(w, y),
{
    reveal(lasts);
    assert forall|at: FrameId| #[trigger] frame_lasts(w, y, at) by {
        assert(frame_lasts(w, x, at));
        assert(frame_lasts(x, y, at));
    }
}

proof fn earned_stays(files: SFiles, x: SWorld, y: SWorld, memos: Seq<SMemo>)
    requires
        lasts(x, y),
        all_earned(files, x, memos),
    ensures
        all_earned(files, y, memos),
{
    reveal(all_earned);
    assert forall|i: int| 0 <= i < memos.len() implies earned(files, y, #[trigger] memos[i]) by {
        let m = memos[i];
        assert(earned(files, x, m));
        let (w, f, args, depth, calls) = choose|
            w: SWorld,
            f: SFn,
            args: Seq<SValue>,
            depth: nat,
            calls: nat,
        |
            lasts(w, x) && is_call_of(m, f, args) && #[trigger] comes_to(
                files,
                w,
                f,
                args,
                m.signature,
                depth,
                calls,
                m.result,
            );
        lasting_goes_on(w, x, y);
    }
}

/// A world that remembers the same and whose environment comes of that of another.
proof fn steps_on(files: SFiles, w: SWorld, x: SWorld)
    requires
        grows(w.env, x.env),
        goes_on(w.table, x.table),
        w.memos == x.memos,
    ensures
        advances(files, w, x),
{
    growth_lasts(w, x);
    if all_earned(files, w, w.memos) {
        earned_stays(files, w, x, w.memos);
    }
}

/// A world with the environment and the memory of another.
proof fn stays(files: SFiles, w: SWorld, x: SWorld)
    requires
        w.env == x.env,
        goes_on(w.table, x.table),
        w.memos == x.memos,
    ensures
        advances(files, w, x),
{
    same_frames_grow(w.env, x.env);
    steps_on(files, w, x);
}

proof fn goes_further(files: SFiles, w: SWorld, x: SWorld, y: SWorld)
    requires
        advances(files, w, x),
        advances(files, x, y),
    ensures
        advances(files, w, y),
{
    growth_goes_on(w.env, x.env, y.env);
}

/// A write to a frame that another environment does not have.
proof fn new_frames_grow(a: SEnv, b: SEnv, c: SEnv, id: FrameId, f: SFrame)
    requires
        grows(a, b),
        id.0 >= a.next_frame,
        c.frames == with_key(b.frames, id, f, 0),
        c.next_frame >= b.next_frame,
    ensures
        grows(a, c),
{
    reveal(grows);
    assert forall|at: FrameId| #[trigger] frame_keeps(a, c, at) by {
        assert(frame_keeps(a, b, at));
        keyed_with_key(b.frames, id, f, at, 0);
    }
}

/// A write to a binding that is not ready.
proof fn slots_grow(a: SEnv, b: SEnv, at: FrameId, id: BindingId, slot: SSlot, g: SFrame)
    requires
        a.frame(at) is Some,
        !(keyed(a.frame(at)->Some_0.slots, id, 0) matches Some(SSlot::Ready(_))),
        g.slots == with_key(a.frame(at)->Some_0.slots, id, slot, 0),
        b.frames == with_key(a.frames, at, g, 0),
        b.next_frame == a.next_frame,
    ensures
        grows(a, b),
{
    reveal(grows);
    let f = a.frame(at)->Some_0;
    assert forall|other: FrameId| #[trigger] frame_keeps(a, b, other) by {
        keyed_with_key(a.frames, at, g, other, 0);
        if other == at {
            assert forall|k: BindingId|
                (#[trigger] keyed(f.slots, k, 0)) matches Some(SSlot::Ready(v)) implies keyed(
                g.slots,
                k,
                0,
            ) == keyed(f.slots, k, 0) by {
                keyed_with_key(f.slots, id, slot, k, 0);
            }
        }
    }
}

proof fn keyed_in_some<V>(
    items: Seq<(FrameId, V)>,
    keep: spec_fn((FrameId, V)) -> bool,
    at: FrameId,
)
    requires
        forall|v: V| !#[trigger] keep((at, v)),
    ensures
        keyed(items.filter(keep), at, 0) is None,
{
    broadcast use vstd::seq_lib::group_filter_ensures;

    if keyed(items.filter(keep), at, 0) is Some {
        let k = crate::holding::keyed_is_among(items.filter(keep), at, 0);
        assert(items.filter(keep).contains(items.filter(keep)[k]));
        assert(keep(items.filter(keep)[k]));
    }
}

/// What is left of an environment whose frames are collected comes of it.
proof fn sweeping_grows(w: SWorld, extra: Seq<SValue>)
    ensures
        grows(w.env, swept(w, extra).env),
{
    reveal(swept);
    reveal(collected);
    reveal(grows);
    let roots = extra + crate::world::module_values(w.modules.loaded) + crate::world::memo_values(
        w.memos,
    );
    let keep = kept_frame(w.env, roots);
    assert forall|at: FrameId| #[trigger] frame_keeps(w.env, swept(w, extra).env, at) by {
        if crate::collection::reachable(w.env, roots, at) {
            assert forall|f: SFrame| #[trigger] keep((at, f)) by {}
            keyed_in_filtered(w.env.frames, keep, at);
        } else {
            assert forall|f: SFrame| !#[trigger] keep((at, f)) by {}
            keyed_in_some(w.env.frames, keep, at);
        }
    }
}

/// Whether the innermost scope of an environment is one that another, of which it comes, does not
/// have.
pub open spec fn above(a: SEnv, b: SEnv) -> bool {
    &&& grows(a, b)
    &&& b.scopes.len() > 0
    &&& b.scopes.last().0 >= a.next_frame
}

proof fn readied_above(a: SEnv, b: SEnv, id: BindingId, name: Seq<char>, v: SValue)
    requires
        above(a, b),
    ensures
        above(a, b.readied(id, name, v)),
{
    reveal(SEnv::readied);
    match b.frame(b.scopes.last()) {
        Some(f) => {
            let c = b.readied(id, name, v);
            new_frames_grow(a, b, c, b.scopes.last(), f.readied(id, name, v));
        },
        None => {},
    }
}

proof fn defined_above(a: SEnv, b: SEnv, table: SBindings, items: Seq<(Seq<char>, SValue)>)
    requires
        above(a, b),
    ensures
        above(a, all_defined(b, table, items).0),
        above(a, all_offered(b, table, items).0),
    decreases items.len(),
{
    reveal(all_defined);
    reveal(all_offered);
    reveal(defined);
    if items.len() > 0 {
        let (name, v) = items[0];
        readied_above(a, b, BindingId(table.next), name, v);
        let (e, t) = defined(b, table, name, v);
        defined_above(a, e, t, items.drop_first());
        defined_above(a, b, table, items.drop_first());
    }
}

proof fn bound_above(a: SEnv, b: SEnv, params: Seq<SParam>, args: Seq<SValue>, i: nat)
    requires
        above(a, b),
    ensures
        above(a, params_bound(b, params, args, i)),
    decreases params.len() - i,
{
    if i < params.len() && i < args.len() {
        let p = params[i as int];
        readied_above(a, b, p.id, p.name, args[i as int]);
        bound_above(a, b.readied(p.id, p.name, args[i as int]), params, args, i + 1);
    }
}

proof fn pushed_is_above(a: SEnv, b: SEnv)
    requires
        grows(a, b),
    ensures
        above(a, b.pushed()),
{
    reveal(grows);
    assert(a.next_frame <= b.next_frame);
    new_frames_grow(a, b, b.pushed(), FrameId(b.next_frame), SFrame::empty());
}

/// The environment of a call comes of that of its caller.
proof fn call_entering_grows(w: SWorld, fun: SFn, args: Seq<SValue>, subst: SSubst)
    ensures
        grows(w.env, call_entered(w, fun, args, subst).env),
{
    reveal(call_entered);
    reveal(SEnv::call_scoped);
    let a = w.env;
    same_frames_grow(a, a);
    let new = FrameId(a.next_frame);
    let first = SEnv { scopes: seq![new], ..a.with_frame() };
    new_frames_grow(a, a, first, new, SFrame::empty());
    let second = first.rescoped(fun.closure);
    same_frames_grow(first, second);
    growth_goes_on(a, first, second);
    pushed_is_above(a, second);
    let start = a.call_scoped(fun.closure);
    let (e1, t1) = all_offered(start, w.table, declarations(a));
    defined_above(a, start, w.table, declarations(a));
    let (e2, t2) = all_defined(e1, t1, bound_types(subst));
    defined_above(a, e1, t1, bound_types(subst));
    bound_above(a, e2, fun.checked.params, args, 0);
}

/// A definition takes the next identity.
proof fn definitions_go_on(env: SEnv, table: SBindings, items: Seq<(Seq<char>, SValue)>)
    ensures
        goes_on(table, all_defined(env, table, items).1),
        goes_on(table, all_offered(env, table, items).1),
    decreases items.len(),
{
    reveal(defined);
    if items.len() > 0 {
        let (name, v) = items[0];
        let (e, t) = defined(env, table, name, v);
        definitions_go_on(e, t, items.drop_first());
        definitions_go_on(env, table, items.drop_first());
    }
}

proof fn call_entering_goes_on(w: SWorld, fun: SFn, args: Seq<SValue>, subst: SSubst)
    ensures
        goes_on(w.table, call_entered(w, fun, args, subst).table),
{
    reveal(call_entered);
    let start = w.env.call_scoped(fun.closure);
    definitions_go_on(start, w.table, declarations(w.env));
    let (e1, t1) = all_offered(start, w.table, declarations(w.env));
    definitions_go_on(e1, t1, bound_types(subst));
}

proof fn slots_declared_grow(env: SEnv, block: SBlock, i: nat)
    ensures
        grows(env, slots_declared(env, block, i).0),
    decreases block.bindings.len() - i,
{
    reveal(SEnv::declared);
    same_frames_grow(env, env);
    if i < block.bindings.len() {
        let b = block.bindings[i as int];
        match env.declared(b.id, b.name, b.initializer) {
            Ok(e) => {
                let at = env.scopes.last();
                let f = env.frame(at)->Some_0;
                let slot = SSlot::Uninitialized(b.initializer);
                slots_grow(env, e, at, b.id, slot, f.named(b.name, b.id).slotted(b.id, slot));
                slots_declared_grow(e, block, i + 1);
                growth_goes_on(env, e, slots_declared(e, block, i + 1).0);
            },
            Err(_) => {},
        }
    }
}

proof fn slot_grows(env: SEnv, h: BindingHandle, slot: SSlot)
    requires
        env.frame(h.frame) is Some,
        !(keyed(env.frame(h.frame)->Some_0.slots, h.id, 0) matches Some(SSlot::Ready(_))),
    ensures
        grows(env, env.with_slot(h, slot)),
{
    let f = env.frame(h.frame)->Some_0;
    let g = SFrame { slots: with_key(f.slots, h.id, slot, 0), ..f };
    slots_grow(env, env.with_slot(h, slot), h.frame, h.id, slot, g);
}

proof fn each_advances(
    files: SFiles,
    w: SWorld,
    items: Seq<SChecked>,
    ev: Evaluator,
    done: Seq<SValue>,
)
    requires
        evaluator_advances(files, ev),
    ensures
        advances(files, w, all_evaluated(w, items, ev, done).0),
    decreases items.len() - done.len(),
{
    stays(files, w, w);
    if done.len() < items.len() {
        let (w1, r) = ev(w, items[done.len() as int]);
        if r is Ok {
            each_advances(files, w1, items, ev, done.push(r->Ok_0));
            goes_further(files, w, w1, all_evaluated(w, items, ev, done).0);
        }
    }
}

proof fn fields_advance(
    files: SFiles,
    w: SWorld,
    items: Seq<(Seq<char>, SChecked)>,
    ev: Evaluator,
    i: nat,
    done: Seq<(Seq<char>, SValue)>,
)
    requires
        evaluator_advances(files, ev),
    ensures
        advances(files, w, fields_evaluated(w, items, ev, i, done).0),
    decreases items.len() - i,
{
    stays(files, w, w);
    if i < items.len() {
        let (w1, r) = ev(w, items[i as int].1);
        if r is Ok {
            let next = with_member(done, items[i as int].0, r->Ok_0);
            fields_advance(files, w1, items, ev, i + 1, next);
            goes_further(files, w, w1, fields_evaluated(w, items, ev, i, done).0);
        }
    }
}

proof fn forcing_advances(files: SFiles, w: SWorld, id: BindingId, ev: Evaluator)
    requires
        evaluator_advances(files, ev),
    ensures
        advances(files, w, forced_rule(w, id, ev).0),
{
    reveal(forced_rule);
    reveal(SWorld::forcing);
    reveal(SEnv::begun);
    reveal(SEnv::settled);
    stays(files, w, w);
    let end = forced_rule(w, id, ev).0;
    match w.env.home(id) {
        None => {},
        Some(frame) => match w.forcing(frame, id) {
            Err(_) => {},
            Ok(w1) => {
                let h = w1.env.handle(id, frame);
                let (env, force) = w1.env.begun(h);
                let w2 = w1.with_env(env);
                match force {
                    Ok(SForce::Initialize(_, init)) => {
                        slot_grows(w1.env, h, SSlot::Initializing);
                        steps_on(files, w, w2);
                        let (w3, r) = ev(w2, init);
                        goes_further(files, w, w2, w3);
                        let (slot, what) = match r {
                            Ok(v) => (SSlot::Ready(v), " completed"@),
                            Err(_) => (SSlot::Uninitialized(init), " reset"@),
                        };
                        if w3.env.settled(h, slot, what) is Ok {
                            slot_grows(w3.env, h, slot);
                            steps_on(files, w3, end);
                        } else {
                            stays(files, w3, end);
                        }
                        goes_further(files, w, w3, end);
                    },
                    _ => {
                        stays(files, w, end);
                    },
                }
            },
        },
    }
}

proof fn match_advances(
    files: SFiles,
    w: SWorld,
    value: SChecked,
    arms: Seq<SArm>,
    ev: Evaluator,
)
    requires
        evaluator_advances(files, ev),
    ensures
        advances(files, w, match_evaluated(w, value, arms, ev).0),
{
    reveal(match_evaluated);
    let (w1, r) = ev(w, value);
    if r is Ok {
        match bare(r->Ok_0) {
            SValue::Adt(_, id, payload) => match arm_at(arms, id, 0) {
                Some(arm) => {
                    let inner = w1.env.pushed();
                    let bound = inner.readied(arm.binding.id, arm.binding.name, *payload);
                    same_frames_grow(w1.env, w1.env);
                    pushed_is_above(w1.env, w1.env);
                    readied_above(w1.env, inner, arm.binding.id, arm.binding.name, *payload);
                    let x = w1.with_env(bound);
                    steps_on(files, w1, x);
                    goes_further(files, w, w1, x);
                    let (w2, out) = ev(x, *arm.body);
                    goes_further(files, w, x, w2);
                    let w3 = w2.with_env(w2.env.popped());
                    same_frames_grow(w2.env, w3.env);
                    steps_on(files, w2, w3);
                    goes_further(files, w, w2, w3);
                },
                None => {},
            },
            _ => {},
        }
    }
}

proof fn call_advances(
    files: SFiles,
    w: SWorld,
    callee: SChecked,
    args: Seq<SChecked>,
    ev: Evaluator,
    ap: Applier,
)
    requires
        evaluator_advances(files, ev),
        applier_advances(files, ap),
    ensures
        advances(files, w, call_evaluated(w, callee, args, ev, ap).0),
{
    reveal(call_evaluated);
    let (w1, r) = ev(w, callee);
    if r is Ok {
        each_advances(files, w1, args, ev, Seq::empty());
        let (w2, vs) = all_evaluated(w1, args, ev, Seq::empty());
        goes_further(files, w, w1, w2);
        let end = call_evaluated(w, callee, args, ev, ap).0;
        if vs is Ok {
            match callee.kind {
                SKind::BindingRef(id) => {
                    if w2.stack.len() > 0 {
                        match w2.env.home(id) {
                            None => {},
                            Some(frame) => {
                                let w3 = w2.stacked(frame, id, false);
                                let t = Some(realized(w3.env, callee.ty));
                                let (w4, out) = ap(w3, r->Ok_0, vs->Ok_0, t);
                                assert(advances(files, w3, w4));
                                stays(files, w2, w3);
                                goes_further(files, w, w2, w3);
                                goes_further(files, w, w3, w4);
                                stays(files, w4, end);
                                goes_further(files, w, w4, end);
                            },
                        }
                    } else {
                        goes_further(files, w, w2, end);
                    }
                },
                _ => {
                    goes_further(files, w, w2, end);
                },
            }
        }
    }
}

proof fn form_advances(files: SFiles, w: SWorld, e: SChecked, ev: Evaluator, ap: Applier)
    requires
        evaluator_advances(files, ev),
        applier_advances(files, ap),
    ensures
        advances(files, w, form_rule(w, e, ev, ap).0),
{
    reveal(form_rule);
    stays(files, w, w);
    match e.kind {
        SKind::BindingRef(id) => {
            forcing_advances(files, w, id, ev);
        },
        SKind::Vector(items) => {
            each_advances(files, w, items, ev, Seq::empty());
        },
        SKind::Fields(items) => {
            fields_advance(files, w, items, ev, 0, Seq::empty());
        },
        SKind::If(condition, yes, no) => {
            reveal(chosen);
            let (w1, r) = ev(w, *condition);
            goes_further(files, w, w1, ev(w1, *yes).0);
            goes_further(files, w, w1, ev(w1, *no).0);
        },
        SKind::Construct(_, _, _) => {
            reveal(constructed);
        },
        SKind::Match(value, arms) => {
            match_advances(files, w, *value, arms, ev);
        },
        SKind::Call(callee, args) => {
            call_advances(files, w, *callee, args, ev, ap);
        },
        SKind::Function(_) => {
            stays(files, w, form_rule(w, e, ev, ap).0);
        },
        SKind::Ascribe(_, _) => {
            reveal(ascribed);
        },
        _ => {},
    }
}

proof fn bindings_advance(files: SFiles, w: SWorld, block: SBlock, ev: Evaluator, i: nat)
    requires
        evaluator_advances(files, ev),
    ensures
        advances(files, w, bindings_forced(w, block, ev, i).0),
    decreases block.bindings.len() - i,
{
    stays(files, w, w);
    if i < block.bindings.len() {
        let id = block.bindings[i as int].id;
        forcing_advances(files, w, id, ev);
        let (w1, r) = forced_rule(w, id, ev);
        if r is Ok {
            bindings_advance(files, w1, block, ev, i + 1);
            goes_further(files, w, w1, bindings_forced(w, block, ev, i).0);
        }
    }
}

proof fn last_advances(
    files: SFiles,
    w: SWorld,
    items: Seq<SChecked>,
    ev: Evaluator,
    i: nat,
    last: SValue,
)
    requires
        evaluator_advances(files, ev),
    ensures
        advances(files, w, last_evaluated(w, items, ev, i, last).0),
    decreases items.len() - i,
{
    stays(files, w, w);
    if i < items.len() {
        let (w1, r) = ev(w, items[i as int]);
        if r is Ok {
            last_advances(files, w1, items, ev, i + 1, r->Ok_0);
            goes_further(files, w, w1, last_evaluated(w, items, ev, i, last).0);
        }
    }
}

proof fn block_advances(files: SFiles, w: SWorld, block: SBlock, ev: Evaluator)
    requires
        evaluator_advances(files, ev),
    ensures
        advances(files, w, block_rule(w, block, ev).0),
{
    reveal(block_rule);
    slots_declared_grow(w.env, block, 0);
    let w1 = w.with_env(slots_declared(w.env, block, 0).0);
    steps_on(files, w, w1);
    bindings_advance(files, w1, block, ev, 0);
    let (w2, r) = bindings_forced(w1, block, ev, 0);
    goes_further(files, w, w1, w2);
    last_advances(files, w2, block.expressions, ev, 0, SValue::Unit);
    goes_further(files, w, w2, last_evaluated(w2, block.expressions, ev, 0, SValue::Unit).0);
}

proof fn memo_at_is_same(
    memos: Seq<SMemo>,
    f: SFn,
    signature: Option<SType>,
    args: Seq<SValue>,
    i: nat,
)
    ensures
        memo_at(memos, f, signature, args, i) matches Some(at) ==> i <= at < memos.len()
            && same_call(memos[at as int], f, signature, args),
    decreases memos.len() - i,
{
    if i < memos.len() && !same_call(memos[i as int], f, signature, args) {
        memo_at_is_same(memos, f, signature, args, i + 1);
    }
}

/// What is remembered of a call that was just evaluated was earned.
proof fn remembering_earns(
    files: SFiles,
    x: SWorld,
    memos: Seq<SMemo>,
    limit: nat,
    w: SWorld,
    f: SFn,
    args: Seq<SValue>,
    signature: Option<SType>,
    depth: nat,
    calls: nat,
    v: SValue,
)
    requires
        all_earned(files, x, memos),
        lasts(w, x),
        comes_to(files, w, f, args, signature, depth, calls, v),
    ensures
        all_earned(files, x, remembered(memos, limit, f, signature, args, v)),
{
    reveal(remembered);
    reveal(all_earned);
    let after = remembered(memos, limit, f, signature, args, v);
    if all_rememberable(args) && limit > 0 {
        let kept = if memos.len() >= limit {
            Seq::empty()
        } else {
            memos
        };
        let at = match memo_at(kept, f, signature, args, 0) {
            Some(at) => at as int,
            None => kept.len() as int,
        };
        memo_at_is_same(kept, f, signature, args, 0);
        assert(is_call_of(after[at], f, args));
        assert(earned(files, x, after[at]));
        assert forall|i: int| 0 <= i < after.len() implies earned(
            files,
            x,
            #[trigger] after[i],
        ) by {
            if i != at {
                assert(after[i] == memos[i]);
            }
        }
    }
}

proof fn function_advances(
    files: SFiles,
    w: SWorld,
    fun: SFn,
    args: Seq<SValue>,
    signature: Option<SType>,
    depth: nat,
    calls: nat,
)
    requires
        evaluator_advances(files, evaluator(files, depth, calls)),
    ensures
        advances(
            files,
            w,
            function_rule(w, fun, args, signature, evaluator(files, depth, calls)).0,
        ),
{
    reveal(function_rule);
    reveal(call_checked);
    let ev = evaluator(files, depth, calls);
    let end = function_rule(w, fun, args, signature, ev).0;
    let (w1, checked) = call_checked(w, fun, args, signature);
    let resolved = match signature {
        Some(t) => t,
        None => arbitrary(),
    };
    call_goes_on(w.env, w.table, fun, args, resolved);
    stays(files, w, w);
    stays(files, w, w1);
    if args.len() == fun.params.len() && checked is Ok && recalled(
        w1.memos,
        fun,
        signature,
        args,
    ) is None {
        let (expected, subst) = checked->Ok_0;
        let entered = call_entered(w1, fun, args, subst);
        assert(entered.memos == w1.memos) by {
            reveal(call_entered);
        }
        call_entering_grows(w1, fun, args, subst);
        call_entering_goes_on(w1, fun, args, subst);
        steps_on(files, w, entered);
        block_advances(files, entered, *fun.checked.body, ev);
        let (w2, out) = block_rule(entered, *fun.checked.body, ev);
        goes_further(files, w, entered, w2);
        let w3 = w2.with_env(w2.env.call_unscoped(w1.env.scopes));
        assert(grows(w2.env, w3.env)) by {
            reveal(SEnv::call_unscoped);
            same_frames_grow(w2.env, w3.env);
        }
        steps_on(files, w2, w3);
        goes_further(files, w, w2, w3);
        let r = call_returned(w3.env, fun, out, expected);
        reveal(call_settled);
        match r {
            Ok(v) => {
                let limit = w3.limits.memoized_calls as nat;
                let w4 = SWorld {
                    memos: remembered(w3.memos, limit, fun, signature, args, v),
                    forgot: w3.forgot || forgets(w3.memos, limit, args),
                    ..w3
                };
                assert(comes_to(files, w, fun, args, signature, depth, calls, v));
                same_frames_grow(w3.env, w4.env);
                growth_lasts(w, w4);
                growth_lasts(w3, w4);
                if all_earned(files, w, w.memos) {
                    earned_stays(files, w3, w4, w3.memos);
                    remembering_earns(
                        files,
                        w4,
                        w3.memos,
                        limit,
                        w,
                        fun,
                        args,
                        signature,
                        depth,
                        calls,
                        v,
                    );
                }
                assert(advances(files, w, w4));
                settling_advances(files, w, w4, seq![SValue::Fn(fun)] + args + seq![v]);
            },
            Err(_) => {
                settling_advances(files, w, w3, seq![SValue::Fn(fun)] + args);
            },
        }
    }
}

proof fn settling_advances(files: SFiles, w: SWorld, x: SWorld, extra: Seq<SValue>)
    requires
        advances(files, w, x),
    ensures
        advances(files, w, swept(x, extra)),
{
    sweeping_grows(x, extra);
    assert(swept(x, extra).memos == x.memos && swept(x, extra).table == x.table) by {
        reveal(swept);
    }
    steps_on(files, x, swept(x, extra));
    goes_further(files, w, x, swept(x, extra));
}

proof fn mapping_advances(
    files: SFiles,
    w: SWorld,
    f: SValue,
    items: Seq<SValue>,
    ap: Applier,
    done: Seq<SValue>,
)
    requires
        applier_advances(files, ap),
    ensures
        advances(files, w, mapped(w, f, items, ap, done).0),
        advances(files, w, indexed(w, f, items, ap, done).0),
    decreases items.len() - done.len(),
{
    stays(files, w, w);
    if done.len() < items.len() {
        let (w1, r) = ap(w, f, seq![items[done.len() as int]], None);
        if r is Ok {
            mapping_advances(files, w1, f, items, ap, done.push(r->Ok_0));
            goes_further(files, w, w1, mapped(w, f, items, ap, done).0);
        }
        let (w2, s) = ap(
            w,
            f,
            seq![SValue::Int(done.len() as i64), items[done.len() as int]],
            None,
        );
        if s is Ok {
            mapping_advances(files, w2, f, items, ap, done.push(s->Ok_0));
            goes_further(files, w, w2, indexed(w, f, items, ap, done).0);
        }
    }
}

proof fn filtering_advances(
    files: SFiles,
    w: SWorld,
    f: SValue,
    items: Seq<SValue>,
    ap: Applier,
    i: nat,
    done: Seq<SValue>,
)
    requires
        applier_advances(files, ap),
    ensures
        advances(files, w, filtered(w, f, items, ap, i, done).0),
        advances(files, w, flattened(w, f, items, ap, i, done).0),
    decreases items.len() - i,
{
    stays(files, w, w);
    if i < items.len() {
        let (w1, r) = ap(w, f, seq![items[i as int]], None);
        if r is Ok {
            let next = if is_true(r->Ok_0) {
                done.push(items[i as int])
            } else {
                done
            };
            filtering_advances(files, w1, f, items, ap, i + 1, next);
            goes_further(files, w, w1, filtered(w, f, items, ap, i, done).0);
            match items_of("flat-map"@, r->Ok_0) {
                Ok(more) => {
                    filtering_advances(files, w1, f, items, ap, i + 1, done + more);
                    goes_further(files, w, w1, flattened(w, f, items, ap, i, done).0);
                },
                Err(_) => {},
            }
        }
    }
}

proof fn folding_advances(
    files: SFiles,
    w: SWorld,
    f: SValue,
    acc: SValue,
    items: Seq<SValue>,
    ap: Applier,
    i: nat,
)
    requires
        applier_advances(files, ap),
    ensures
        advances(files, w, folded(w, f, acc, items, ap, i).0),
    decreases items.len() - i,
{
    stays(files, w, w);
    if i < items.len() {
        let (w1, r) = ap(w, f, seq![acc, items[i as int]], None);
        if r is Ok {
            folding_advances(files, w1, f, r->Ok_0, items, ap, i + 1);
            goes_further(files, w, w1, folded(w, f, acc, items, ap, i).0);
        }
    }
}

proof fn sorting_advances(
    files: SFiles,
    w: SWorld,
    f: SValue,
    items: Seq<SValue>,
    ap: Applier,
    i: nat,
    done: Seq<(Seq<char>, SValue)>,
)
    requires
        applier_advances(files, ap),
    ensures
        advances(files, w, sorted_by(w, f, items, ap, i, done).0),
    decreases items.len() - i,
{
    stays(files, w, w);
    if i < items.len() {
        let (w1, r) = ap(w, f, seq![items[i as int]], None);
        if r is Ok {
            match crate::ast::string_of(r->Ok_0) {
                Some(key) => {
                    let next = with_keyed(done, key, items[i as int]);
                    sorting_advances(files, w1, f, items, ap, i + 1, next);
                    goes_further(files, w, w1, sorted_by(w, f, items, ap, i, done).0);
                },
                None => {},
            }
        }
    }
}

proof fn builtin_advances(
    files: SFiles,
    w: SWorld,
    name: Seq<char>,
    args: Seq<SValue>,
    ap: Applier,
)
    requires
        applier_advances(files, ap),
    ensures
        advances(files, w, builtin_rule(files, w, name, args, ap).0),
{
    reveal(builtin_rule);
    reveal(map_rule);
    reveal(indexed_rule);
    reveal(filter_rule);
    reveal(flat_map_rule);
    reveal(fold_rule);
    reveal(sort_rule);
    stays(files, w, w);
    if name == "map"@ {
        match items_of("map"@, args[1]) {
            Ok(items) => {
                mapping_advances(files, w, args[0], items, ap, Seq::empty());
            },
            Err(_) => {},
        }
    } else if name == "indexed-map"@ {
        match items_of("indexed-map"@, args[1]) {
            Ok(items) => {
                mapping_advances(files, w, args[0], items, ap, Seq::empty());
            },
            Err(_) => {},
        }
    } else if name == "filter"@ {
        match items_of("filter"@, args[1]) {
            Ok(items) => {
                filtering_advances(files, w, args[0], items, ap, 0, Seq::empty());
            },
            Err(_) => {},
        }
    } else if name == "flat-map"@ {
        match items_of("flat-map"@, args[1]) {
            Ok(items) => {
                filtering_advances(files, w, args[0], items, ap, 0, Seq::empty());
            },
            Err(_) => {},
        }
    } else if name == "fold"@ {
        match items_of("fold"@, args[2]) {
            Ok(items) => {
                folding_advances(files, w, args[0], args[1], items, ap, 0);
            },
            Err(_) => {},
        }
    } else if name == "sort-by"@ {
        match items_of("sort-by"@, args[1]) {
            Ok(items) => {
                sorting_advances(files, w, args[0], items, ap, 0, Seq::empty());
            },
            Err(_) => {},
        }
    } else {
        reveal(read_rule);
        reveal(data_rule);
        stays(files, w, builtin_rule(files, w, name, args, ap).0);
    }
}

/// Evaluation leaves ready bindings as they are and remembers only what calls came to, whether it
/// succeeds or fails: the environment that it leaves comes of the one that it found; and where each
/// result that is remembered was earned, it is so afterwards too.
pub proof fn evaluation_advances(
    files: SFiles,
    w: SWorld,
    e: SChecked,
    depth: nat,
    calls: nat,
)
    ensures
        advances(files, w, evaluated(files, w, e, depth, calls).0),
    decreases depth, 0nat, 1nat,
{
    stays(files, w, w);
    if depth > 0 {
        let d = (depth - 1) as nat;
        let ev = evaluator(files, d, calls);
        let ap = applier(files, d, calls, NESTED_OPERATIONS as nat);
        evaluator_always_advances(files, d, calls);
        applier_always_advances(files, d, calls, NESTED_OPERATIONS as nat);
        reveal(entered_rule);
        let w1 = w.with_budget(w.budget.expr_entered());
        let end = evaluated(files, w, e, depth, calls).0;
        match w1.budget.stepped() {
            Ok(b) => {
                let w2 = w1.with_budget(b);
                stays(files, w, w2);
                form_advances(files, w2, e, ev, ap);
                let w3 = form_rule(w2, e, ev, ap).0;
                goes_further(files, w, w2, w3);
                stays(files, w3, end);
                goes_further(files, w, w3, end);
            },
            Err(_) => {
                stays(files, w, end);
            },
        }
    }
}

proof fn evaluator_always_advances(files: SFiles, depth: nat, calls: nat)
    ensures
        evaluator_advances(files, evaluator(files, depth, calls)),
    decreases depth, 0nat, 2nat,
{
    let ev = evaluator(files, depth, calls);
    assert forall|w: SWorld, e: SChecked| advances(files, w, (#[trigger] ev(w, e)).0) by {
        evaluation_advances(files, w, e, depth, calls);
    }
}

proof fn application_advances(
    files: SFiles,
    w: SWorld,
    f: SValue,
    args: Seq<SValue>,
    signature: Option<SType>,
    depth: nat,
    calls: nat,
    hops: nat,
)
    ensures
        advances(files, w, applied(files, w, f, args, signature, depth, calls, hops).0),
    decreases depth, hops + 1, 1nat,
{
    stays(files, w, w);
    match f {
        SValue::Fn(fun) => {
            if calls > 0 {
                let c = (calls - 1) as nat;
                let w1 = w.with_budget(w.budget.call_entered());
                evaluator_always_advances(files, depth, c);
                stays(files, w, w1);
                function_advances(files, w1, fun, args, signature, depth, c);
                let ev = evaluator(files, depth, c);
                let w2 = function_rule(w1, fun, args, signature, ev).0;
                goes_further(files, w, w1, w2);
                let end = applied(files, w, f, args, signature, depth, calls, hops).0;
                stays(files, w2, end);
                goes_further(files, w, w2, end);
            }
        },
        SValue::BuiltinFn(name) => {
            if hops > 0 {
                let h = (hops - 1) as nat;
                applier_always_advances(files, depth, calls, h);
                builtin_advances(files, w, name, args, applier(files, depth, calls, h));
            }
        },
        _ => {},
    }
}

proof fn applier_always_advances(files: SFiles, depth: nat, calls: nat, hops: nat)
    ensures
        applier_advances(files, applier(files, depth, calls, hops)),
    decreases depth, hops + 1, 2nat,
{
    let ap = applier(files, depth, calls, hops);
    assert forall|w: SWorld, v: SValue, args: Seq<SValue>, t: Option<SType>|
        advances(files, w, (#[trigger] ap(w, v, args, t)).0) by {
        application_advances(files, w, v, args, t, depth, calls, hops);
    }
}

/// A binding that is ready keeps its value while expressions are evaluated, for as long as its
/// frame is held.
pub proof fn ready_bindings_keep_their_values(
    files: SFiles,
    w: SWorld,
    e: SChecked,
    depth: nat,
    calls: nat,
    h: BindingHandle,
    v: SValue,
)
    requires
        h.frame.0 < w.env.next_frame,
        crate::frames::handle_value(w.env, h) == Ok::<SValue, SError>(v),
    ensures
        ({
            let after = evaluated(files, w, e, depth, calls).0.env;
            after.frame(h.frame) is Some ==> keyed(after.frame(h.frame)->Some_0.slots, h.id, 0)
                == Some(SSlot::Ready(v))
        }),
{
    evaluation_advances(files, w, e, depth, calls);
    reveal(grows);
    let after = evaluated(files, w, e, depth, calls).0.env;
    assert(frame_keeps(w.env, after, h.frame));
}

/// A call that is recalled gives what a function of the same identity came to, on the same
/// arguments and for the same signature, when its body was evaluated in an earlier world.
pub proof fn recalled_result_is_what_a_call_came_to(
    files: SFiles,
    w: SWorld,
    f: SFn,
    signature: Option<SType>,
    args: Seq<SValue>,
) -> (m: SMemo)
    requires
        all_earned(files, w, w.memos),
        recalled(w.memos, f, signature, args) is Some,
    ensures
        m.function.identity == f.identity,
        m.signature == signature,
        same_arguments(m.args, args),
        recalled(w.memos, f, signature, args) == Some(m.result),
        earned(files, w, m),
{
    reveal(recalled);
    reveal(all_earned);
    memo_at_is_same(w.memos, f, signature, args, 0);
    w.memos[memo_at(w.memos, f, signature, args, 0)->Some_0 as int]
}

/// The block of a program leaves ready bindings as they are and remembers only what calls came to.
pub proof fn program_block_advances(files: SFiles, w: SWorld, items: Seq<SItem>)
    ensures
        advances(files, w, block_run(files, w, items).0),
{
    reveal(block_run);
    let (table, made) = block_made(w.env, w.table, Seq::empty(), items, None);
    let w1 = SWorld { table, ..w };
    block_goes_on(w.env, w.table, Seq::empty(), items, None);
    stays(files, w, w1);
    if made is Ok {
        let depth = left(w1.budget.exprs, w1.budget.expr_limit);
        let calls = left(w1.budget.calls, w1.budget.call_limit);
        let ev = evaluator(files, depth, calls);
        evaluator_always_advances(files, depth, calls);
        block_advances(files, w1, made->Ok_0, ev);
        let (w2, r) = block_rule(w1, made->Ok_0, ev);
        goes_further(files, w, w1, w2);
        let extra = match r {
            Ok(v) => seq![v],
            Err(_) => Seq::empty(),
        };
        settling_advances(files, w, w2, extra);
    }
}

/// A world that remembers the same and comes of another.
proof fn moves_on(files: SFiles, w: SWorld, x: SWorld)
    requires
        lasts(w, x),
        w.memos == x.memos,
    ensures
        progresses(files, w, x),
{
    if all_earned(files, w, w.memos) {
        earned_stays(files, w, x, w.memos);
    }
}

proof fn moves_further(files: SFiles, w: SWorld, x: SWorld, y: SWorld)
    requires
        progresses(files, w, x),
        progresses(files, x, y),
    ensures
        progresses(files, w, y),
{
    lasting_goes_on(w, x, y);
}

/// A definition leaves the bindings that have been given their identities as they are.
proof fn definition_lasts(w: SWorld, name: Seq<char>, v: SValue)
    ensures
        lasts(
            w,
            (SWorld {
                env: defined(w.env, w.table, name, v).0,
                table: defined(w.env, w.table, name, v).1,
                ..w
            }),
        ),
{
    reveal(defined);
    reveal(SEnv::readied);
    reveal(lasts);
    let (env, table) = defined(w.env, w.table, name, v);
    let x = SWorld { env, table, ..w };
    let id = BindingId(w.table.next);
    assert forall|at: FrameId| #[trigger] frame_lasts(w, x, at) by {
        if w.env.scopes.len() > 0 {
            let top = w.env.scopes.last();
            match w.env.frame(top) {
                Some(f) => {
                    let g = f.readied(id, name, v);
                    keyed_with_key(w.env.frames, top, g, at, 0);
                    if at == top {
                        assert forall|k: BindingId|
                            k.0 < w.table.next && ((#[trigger] keyed(f.slots, k, 0)) matches Some(
                                SSlot::Ready(_),
                            )) implies keyed(g.slots, k, 0) == keyed(f.slots, k, 0) by {
                            keyed_with_key(f.slots, id, SSlot::Ready(v), k, 0);
                        }
                    }
                },
                None => {},
            }
        }
    }
}

proof fn definitions_last(w: SWorld, items: Seq<(Seq<char>, SValue)>)
    ensures
        lasts(
            w,
            (SWorld {
                env: all_defined(w.env, w.table, items).0,
                table: all_defined(w.env, w.table, items).1,
                ..w
            }),
        ),
        lasts(
            w,
            (SWorld {
                env: all_offered(w.env, w.table, items).0,
                table: all_offered(w.env, w.table, items).1,
                ..w
            }),
        ),
    decreases items.len(),
{
    same_frames_grow(w.env, w.env);
    growth_lasts(w, w);
    if items.len() > 0 {
        let (name, v) = items[0];
        let (env, table) = defined(w.env, w.table, name, v);
        let x = SWorld { env, table, ..w };
        definition_lasts(w, name, v);
        let rest = items.drop_first();
        definitions_last(x, rest);
        definitions_last(w, rest);
        let (e, t) = all_defined(env, table, rest);
        lasting_goes_on(w, x, SWorld { env: e, table: t, ..x });
        let (e, t) = all_offered(env, table, rest);
        lasting_goes_on(w, x, SWorld { env: e, table: t, ..x });
        assert(SWorld { env: e, table: t, ..x } == SWorld { env: e, table: t, ..w });
    } else {
        let (e, t) = all_defined(w.env, w.table, items);
        assert(SWorld { env: e, table: t, ..w } == w);
    }
}

proof fn installing_lasts(
    w: SWorld,
    loaded: Seq<(Seq<char>, Seq<(Seq<char>, SValue)>)>,
    i: nat,
)
    ensures
        lasts(
            w,
            (SWorld {
                env: all_installed(w.env, w.table, loaded, i).0,
                table: all_installed(w.env, w.table, loaded, i).1,
                ..w
            }),
        ),
    decreases loaded.len() - i,
{
    if i < loaded.len() {
        let items = qualified_as(loaded[i as int].0, loaded[i as int].1);
        definitions_last(w, items);
        let (env, table) = all_offered(w.env, w.table, items);
        let x = SWorld { env, table, ..w };
        installing_lasts(x, loaded, i + 1);
        let (e, t) = all_installed(env, table, loaded, i + 1);
        lasting_goes_on(w, x, SWorld { env: e, table: t, ..x });
        assert(SWorld { env: e, table: t, ..x } == SWorld { env: e, table: t, ..w });
    } else {
        same_frames_grow(w.env, w.env);
        growth_lasts(w, w);
        let (e, t) = all_installed(w.env, w.table, loaded, i);
        assert(SWorld { env: e, table: t, ..w } == w);
    }
}

/// A module starts in a frame of its own.
proof fn module_entering_lasts(w: SWorld, name: Seq<char>)
    ensures
        lasts(w, module_entered(w, name)),
        module_entered(w, name).memos == w.memos,
{
    reveal(module_entered);
    reveal(fresh);
    let new = FrameId(w.env.next_frame);
    let env = SEnv { scopes: seq![new], module: name, ..w.env.with_frame() };
    let x = w.with_env(env);
    same_frames_grow(w.env, w.env);
    new_frames_grow(w.env, w.env, env, new, SFrame::empty());
    growth_lasts(w, x);
    definitions_last(x, base_definitions());
    let (e, t) = fresh(w.env, w.table, name);
    let y = SWorld { env: e, table: t, ..w };
    assert(y == SWorld { env: e, table: t, ..x });
    lasting_goes_on(w, x, y);
    match w.env.lookup_by_type("inputs"@, SType::HostInputs) {
        Ok(v) => {
            definition_lasts(y, "inputs"@, v);
            let (e, t) = defined(y.env, y.table, "inputs"@, v);
            assert(module_entered(w, name) == SWorld { env: e, table: t, ..y });
            lasting_goes_on(w, y, module_entered(w, name));
        },
        Err(_) => {
            assert(module_entered(w, name) == y);
        },
    }
}

pub open spec fn loader_progresses(files: SFiles, load: Loader) -> bool {
    forall|w: SWorld, name: Seq<char>| progresses(files, w, (#[trigger] load(w, name)).0)
}

pub open spec fn runner_progresses(files: SFiles, run: Runner) -> bool {
    forall|w: SWorld, p: SProgram| progresses(files, w, (#[trigger] run(w, p)).0)
}

proof fn rests(files: SFiles, w: SWorld, x: SWorld)
    requires
        w.env == x.env,
        w.table == x.table,
        w.memos == x.memos,
    ensures
        progresses(files, w, x),
{
    same_frames_grow(w.env, x.env);
    growth_lasts(w, x);
    moves_on(files, w, x);
}

proof fn declarations_progress(
    files: SFiles,
    w: SWorld,
    forms: Seq<SForm>,
    load: Loader,
    i: nat,
)
    requires
        loader_progresses(files, load),
    ensures
        progresses(files, w, declared_rule(w, forms, load, i).0),
    decreases forms.len() - i,
{
    rests(files, w, w);
    let end = declared_rule(w, forms, load, i).0;
    if i < forms.len() {
        match forms[i as int] {
            SForm::Require(name, exposure) => {
                if exposure is Qualified {
                    let (w1, r) = load(w, name);
                    if r is Ok {
                        declarations_progress(files, w1, forms, load, i + 1);
                        moves_further(files, w, w1, end);
                    }
                }
            },
            SForm::Type(d) => {
                let (w1, r) = type_declared(w, d);
                match declared_value(w.env, d) {
                    Ok(v) => {
                        definition_lasts(w, d.name, v);
                        moves_on(files, w, w1);
                        declarations_progress(files, w1, forms, load, i + 1);
                        moves_further(files, w, w1, end);
                    },
                    Err(_) => {},
                }
            },
            SForm::Invalid(_) => {},
            SForm::Block(_) => {
                declarations_progress(files, w, forms, load, i + 1);
            },
        }
    }
}

proof fn loading_progresses(
    files: SFiles,
    w: SWorld,
    name: Seq<char>,
    p: SProgram,
    run: Runner,
)
    requires
        runner_progresses(files, run),
    ensures
        progresses(files, w, module_loaded(w, name, p, run).0),
{
    reveal(module_loaded);
    let start = module_entered(w, name);
    module_entering_lasts(w, name);
    moves_on(files, w, start);
    let (w1, r) = run(start, p);
    moves_further(files, w, start, w1);
    let back = SWorld {
        env: SEnv { module: w.env.module, ..w1.env.call_unscoped(w.env.scopes) },
        ..w1
    };
    assert(grows(w1.env, back.env)) by {
        reveal(SEnv::call_unscoped);
        same_frames_grow(w1.env, back.env);
    }
    growth_lasts(w1, back);
    moves_on(files, w1, back);
    moves_further(files, w, w1, back);
    if r is Ok {
        let defs = exports(w1.env);
        let x = SWorld { modules: back.modules.finished(name, defs), ..back };
        rests(files, back, x);
        moves_further(files, w, back, x);
        let w2 = one_installed(x, name, defs);
        definitions_last(x, qualified_as(name, defs));
        moves_on(files, x, w2);
        moves_further(files, w, x, w2);
        installing_lasts(w2, w2.modules.loaded, 0);
        let (env, table) = all_installed(w2.env, w2.table, w2.modules.loaded, 0);
        let end = SWorld { env, table, ..w2 };
        moves_on(files, w2, end);
        moves_further(files, w, w2, end);
    }
}

proof fn requirement_progresses(lib: SLibrary, w: SWorld, name: Seq<char>, nesting: nat)
    ensures
        progresses(lib.files, w, required(lib, w, name, nesting).0),
    decreases nesting, 0nat,
{
    rests(lib.files, w, w);
    if nesting > 0 {
        let run = runner(lib, (nesting - 1) as nat);
        assert forall|w: SWorld, p: SProgram|
            progresses(lib.files, w, (#[trigger] run(w, p)).0) by {
            program_progresses(lib, w, p, (nesting - 1) as nat);
        }
        reveal(required_rule);
        let end = required(lib, w, name, nesting).0;
        match w.modules.cached(name) {
            Some(defs) => {
                definitions_last(w, qualified_as(name, defs));
                moves_on(lib.files, w, end);
            },
            None => match w.modules.begun(name) {
                Ok(modules) => {
                    let w1 = SWorld { modules, ..w };
                    rests(lib.files, w, w1);
                    match keyed(lib.modules, name, 0) {
                        Some(SModuleAnswer::Found(p)) => {
                            loading_progresses(lib.files, w1, name, p, run);
                            moves_further(lib.files, w, w1, end);
                        },
                        _ => {
                            rests(lib.files, w, end);
                        },
                    }
                },
                Err(_) => {},
            },
        }
    }
}

/// A program leaves the bindings that were given identities before it as they are, and remembers
/// only what calls came to, whatever modules it requires.
pub proof fn program_progresses(lib: SLibrary, w: SWorld, p: SProgram, nesting: nat)
    ensures
        progresses(lib.files, w, program_run(lib, w, p, nesting).0),
    decreases nesting, 2nat,
{
    let load = loader(lib, nesting);
    assert forall|w: SWorld, name: Seq<char>|
        progresses(lib.files, w, (#[trigger] load(w, name)).0) by {
        requirement_progresses(lib, w, name, nesting);
    }
    declarations_progress(lib.files, w, p.declarations, load, 0);
    let (w1, r) = declared_rule(w, p.declarations, load, 0);
    if r is Ok {
        program_block_advances(lib.files, w1, p.items);
        let end = block_run(lib.files, w1, p.items).0;
        growth_lasts(w1, end);
        moves_further(lib.files, w, w1, end);
    }
}

/// Whatever a compilation comes to, all that is remembered at its end was earned.
pub proof fn compilation_remembers_what_calls_came_to(
    lib: SLibrary,
    p: SProgram,
    inputs: SJson,
    limits: CompilerLimits,
)
    ensures
        ({
            let end = compiled_cold(lib, p, inputs, limits).0;
            all_earned(lib.files, end, end.memos)
        }),
{
    reveal(compiled_cold);
    reveal(new_world);
    reveal(all_earned);
    let w = new_world(limits);
    let w = w.with_budget(w.budget.installed(limits));
    let (env, table) = defined(w.env, w.table, "inputs"@, SValue::HostInputs(inputs));
    let start = SWorld { env, table, ..w };
    program_progresses(lib, start, p, nesting_limit(lib));
}

} // verus!
