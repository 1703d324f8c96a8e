//! Reclaiming frames that nothing can reach any more: what the scopes in force hold, what given
//! values close over, and what the values in those frames close over in turn, is kept.

use vstd::prelude::*;

use crate::ast::{
    value_entries_view, value_fields_view, values_view, FrameId, SValue, Value,
};
use crate::env::{
    filter_step, frames_view, keyed, slots_view, BindingSlot, Env, SEnv, SFrame, SSlot, ScopeFrame,
};

verus! {

broadcast use vstd::seq_lib::group_seq_properties;

/// How many frames are allocated at least before a collection is due.
pub const FRAME_COLLECTION_THRESHOLD: u64 = 1_024;

/// Whether a value closes over a frame.
pub open spec fn mentions(v: SValue, f: FrameId) -> bool
    decreases v,
{
    match v {
        SValue::Fn(x) => x.closure.contains(f),
        SValue::List(items) => some_mentions(items, f),
        SValue::Product(items) => some_mentions(items, f),
        SValue::SetOf(items) => some_mentions(items, f),
        SValue::Record(fields) => some_field_mentions(fields, f),
        SValue::MapOf(entries) => some_entry_mentions(entries, f),
        SValue::Typed(inner, _) => mentions(*inner, f),
        SValue::PackedValue(inner) => mentions(*inner, f),
        SValue::Adt(_, _, payload) => mentions(*payload, f),
        _ => false,
    }
}

pub open spec fn some_mentions(items: Seq<SValue>, f: FrameId) -> bool
    decreases items,
{
    exists|i: int| 0 <= i < items.len() && mentions(#[trigger] items[i], f)
}

pub open spec fn some_field_mentions(items: Seq<(Seq<char>, SValue)>, f: FrameId) -> bool
    decreases items,
{
    exists|i: int| 0 <= i < items.len() && mentions((#[trigger] items[i]).1, f)
}

pub open spec fn some_entry_mentions(items: Seq<(SValue, SValue)>, f: FrameId) -> bool
    decreases items,
{
    exists|i: int|
        0 <= i < items.len() && (mentions((#[trigger] items[i]).0, f) || mentions(items[i].1, f))
}

/// Whether a ready value of a frame closes over another.
pub open spec fn frame_mentions(frame: SFrame, f: FrameId) -> bool {
    exists|i: int|
        0 <= i < frame.slots.len() && slot_mentions((#[trigger] frame.slots[i]).1, f)
}

pub open spec fn slot_mentions(slot: SSlot, f: FrameId) -> bool {
    match slot {
        SSlot::Ready(v) => mentions(v, f),
        _ => false,
    }
}

/// Whether a frame is held by a scope in force or closed over by one of the given values.
pub open spec fn rooted(env: SEnv, extra: Seq<SValue>, f: FrameId) -> bool {
    keyed(env.roots, f, 0) is Some || some_mentions(extra, f)
}

/// Whether a frame can be reached in at most `n` steps.
pub open spec fn reached(env: SEnv, extra: Seq<SValue>, f: FrameId, n: nat) -> bool
    decreases n,
{
    if n == 0 {
        rooted(env, extra, f)
    } else {
        reached(env, extra, f, (n - 1) as nat) || exists|i: int|
            0 <= i < env.frames.len() && reached(
                env,
                extra,
                (#[trigger] env.frames[i]).0,
                (n - 1) as nat,
            ) && frame_mentions(env.frames[i].1, f)
    }
}

pub open spec fn reachable(env: SEnv, extra: Seq<SValue>, f: FrameId) -> bool {
    exists|n: nat| reached(env, extra, f, n)
}

pub open spec fn kept_frame(env: SEnv, extra: Seq<SValue>) -> spec_fn((FrameId, SFrame)) -> bool {
    |e: (FrameId, SFrame)| reachable(env, extra, e.0)
}

pub open spec fn at_least(n: u64) -> u64 {
    if n < FRAME_COLLECTION_THRESHOLD {
        FRAME_COLLECTION_THRESHOLD
    } else {
        n
    }
}

pub open spec fn doubled(n: u64) -> u64 {
    if n > u64::MAX / 2 {
        u64::MAX
    } else {
        (2 * n) as u64
    }
}

pub open spec fn as_count(n: nat) -> u64 {
    if n > u64::MAX {
        u64::MAX
    } else {
        n as u64
    }
}

/// The environment that keeps exactly the frames that can be reached. Where a collection reclaims
/// less than a quarter of the frames, the next is due after twice as many allocations.
#[verifier::opaque]
pub open spec fn collected(env: SEnv, extra: Seq<SValue>) -> SEnv {
    let frames = env.frames.filter(kept_frame(env, extra));
    let reclaimed = env.frames.len() - frames.len();
    SEnv {
        frames,
        allocations: 0,
        interval: if reclaimed < env.frames.len() / 4 {
            doubled(at_least(env.interval))
        } else {
            at_least(as_count(frames.len()))
        },
        ..env
    }
}

pub open spec fn collection_due(env: SEnv) -> bool {
    env.allocations >= at_least(env.interval)
}

fn has_frame(ids: &Vec<FrameId>, id: FrameId) -> (r: bool)
    ensures
        r == ids@.contains(id),
{
    let mut i: usize = 0;
    while i < ids.len()
        invariant
            i <= ids.len(),
            forall|j: int| 0 <= j < i ==> ids@[j] != id,
        decreases ids.len() - i,
    {
        if ids[i] == id {
            return true;
        }
        i = i + 1;
    }
    false
}

/// Adds the frames that a value closes over.
fn add_mentions(v: &Value, out: &mut Vec<FrameId>)
    ensures
        forall|f: FrameId| #[trigger]
            final(out)@.contains(f) <==> old(out)@.contains(f) || mentions(v@, f),
    decreases v,
{
    match v {
        Value::Fn(x) => add_frames(&x.closure, out),
        Value::List(items) => add_all_mentions(items, out),
        Value::Product(items) => add_all_mentions(items, out),
        Value::SetOf(items) => add_all_mentions(items, out),
        Value::Record(fields) => add_field_mentions(fields, out),
        Value::MapOf(entries) => add_entry_mentions(entries, out),
        Value::Typed(inner, _) => add_mentions(inner, out),
        Value::PackedValue(inner) => add_mentions(inner, out),
        Value::Adt { payload, .. } => add_mentions(payload, out),
        _ => {},
    }
}

fn add_frames(ids: &Vec<FrameId>, out: &mut Vec<FrameId>)
    ensures
        forall|f: FrameId| #[trigger]
            final(out)@.contains(f) <==> old(out)@.contains(f) || ids@.contains(f),
{
    let mut i: usize = 0;
    while i < ids.len()
        invariant
            i <= ids.len(),
            forall|f: FrameId| #[trigger]
                out@.contains(f) <==> old(out)@.contains(f) || ids@.take(i as int).contains(f),
        decreases ids.len() - i,
    {
        let ghost before = out@;
        let ghost now = ids@.take(i + 1);
        let ghost earlier = ids@.take(i as int);
        proof {
            assert(now =~= earlier.push(ids@[i as int]));
            assert(now[i as int] == ids@[i as int]);
            assert forall|f: FrameId| now.contains(f) <==> earlier.contains(f) || f
                == ids@[i as int] by {
                if earlier.contains(f) {
                    let k = choose|k: int| 0 <= k < earlier.len() && earlier[k] == f;
                    assert(now[k] == f);
                }
                if now.contains(f) {
                    let k = choose|k: int| 0 <= k < now.len() && now[k] == f;
                    if k < i {
                        assert(earlier[k] == f);
                    }
                }
            }
        }
        if !has_frame(out, ids[i]) {
            out.push(ids[i]);
            proof {
                assert(out@[before.len() as int] == ids@[i as int]);
                assert forall|f: FrameId| out@.contains(f) <==> before.contains(f) || f
                    == ids@[i as int] by {
                    if before.contains(f) {
                        let k = choose|k: int| 0 <= k < before.len() && before[k] == f;
                        assert(out@[k] == f);
                    }
                }
            }
        }
        i = i + 1;
    }
    assert(ids@.take(ids.len() as int) =~= ids@);
}

fn add_all_mentions(items: &Vec<Value>, out: &mut Vec<FrameId>)
    ensures
        forall|f: FrameId| #[trigger]
            final(out)@.contains(f) <==> old(out)@.contains(f) || some_mentions(
                values_view(items@),
                f,
            ),
    decreases items,
{
    let ghost all = values_view(items@);
    let mut i: usize = 0;
    assert(all.len() == items@.len());
    while i < items.len()
        invariant
            i <= items.len(),
            all == values_view(items@),
            all.len() == items@.len(),
            forall|f: FrameId| #[trigger]
                out@.contains(f) <==> old(out)@.contains(f) || some_mentions(
                    all.take(i as int),
                    f,
                ),
        decreases items.len() - i,
    {
        let ghost before = out@;
        assert(all[i as int] == items@[i as int]@);
        add_mentions(&items[i], out);
        assert forall|f: FrameId| #[trigger] out@.contains(f) <==> old(out)@.contains(f)
            || some_mentions(all.take(i + 1), f) by {
            let now = all.take(i + 1);
            assert(before.contains(f) <==> old(out)@.contains(f) || some_mentions(
                all.take(i as int),
                f,
            ));
            if some_mentions(all.take(i as int), f) {
                let k = choose|k: int|
                    0 <= k < i && mentions(#[trigger] all.take(i as int)[k], f);
                assert(now[k] == all[k]);
            }
            if mentions(all[i as int], f) {
                assert(now[i as int] == all[i as int]);
            }
            if some_mentions(now, f) {
                let k = choose|k: int| 0 <= k < now.len() && mentions(#[trigger] now[k], f);
                if k < i {
                    assert(all.take(i as int)[k] == all[k]);
                }
            }
        }
        i = i + 1;
    }
    assert(all.take(items.len() as int) =~= all);
}

fn add_field_mentions(items: &Vec<(String, Value)>, out: &mut Vec<FrameId>)
    ensures
        forall|f: FrameId| #[trigger]
            final(out)@.contains(f) <==> old(out)@.contains(f) || some_field_mentions(
                value_fields_view(items@),
                f,
            ),
    decreases items,
{
    let ghost all = value_fields_view(items@);
    let mut i: usize = 0;
    assert(all.len() == items@.len());
    while i < items.len()
        invariant
            i <= items.len(),
            all == value_fields_view(items@),
            all.len() == items@.len(),
            forall|f: FrameId| #[trigger]
                out@.contains(f) <==> old(out)@.contains(f) || some_field_mentions(
                    all.take(i as int),
                    f,
                ),
        decreases items.len() - i,
    {
        let ghost before = out@;
        assert(all[i as int] == (items@[i as int].0@, items@[i as int].1@));
        add_mentions(&items[i].1, out);
        assert forall|f: FrameId| #[trigger] out@.contains(f) <==> old(out)@.contains(f)
            || some_field_mentions(all.take(i + 1), f) by {
            let now = all.take(i + 1);
            assert(before.contains(f) <==> old(out)@.contains(f) || some_field_mentions(
                all.take(i as int),
                f,
            ));
            if some_field_mentions(all.take(i as int), f) {
                let k = choose|k: int|
                    0 <= k < i && mentions((#[trigger] all.take(i as int)[k]).1, f);
                assert(now[k] == all[k]);
            }
            if mentions(all[i as int].1, f) {
                assert(now[i as int] == all[i as int]);
            }
            if some_field_mentions(now, f) {
                let k = choose|k: int| 0 <= k < now.len() && mentions((#[trigger] now[k]).1, f);
                if k < i {
                    assert(all.take(i as int)[k] == all[k]);
                }
            }
        }
        i = i + 1;
    }
    assert(all.take(items.len() as int) =~= all);
}

fn add_entry_mentions(items: &Vec<(Value, Value)>, out: &mut Vec<FrameId>)
    ensures
        forall|f: FrameId| #[trigger]
            final(out)@.contains(f) <==> old(out)@.contains(f) || some_entry_mentions(
                value_entries_view(items@),
                f,
            ),
    decreases items,
{
    let ghost all = value_entries_view(items@);
    let mut i: usize = 0;
    assert(all.len() == items@.len());
    while i < items.len()
        invariant
            i <= items.len(),
            all == value_entries_view(items@),
            all.len() == items@.len(),
            forall|f: FrameId| #[trigger]
                out@.contains(f) <==> old(out)@.contains(f) || some_entry_mentions(
                    all.take(i as int),
                    f,
                ),
        decreases items.len() - i,
    {
        let ghost before = out@;
        assert(all[i as int] == (items@[i as int].0@, items@[i as int].1@));
        add_mentions(&items[i].0, out);
        add_mentions(&items[i].1, out);
        assert forall|f: FrameId| #[trigger] out@.contains(f) <==> old(out)@.contains(f)
            || some_entry_mentions(all.take(i + 1), f) by {
            let now = all.take(i + 1);
            assert(before.contains(f) <==> old(out)@.contains(f) || some_entry_mentions(
                all.take(i as int),
                f,
            ));
            if some_entry_mentions(all.take(i as int), f) {
                let k = choose|k: int|
                    0 <= k < i && (mentions((#[trigger] all.take(i as int)[k]).0, f) || mentions(
                        all.take(i as int)[k].1,
                        f,
                    ));
                assert(now[k] == all[k]);
            }
            if mentions(all[i as int].0, f) || mentions(all[i as int].1, f) {
                assert(now[i as int] == all[i as int]);
            }
            if some_entry_mentions(now, f) {
                let k = choose|k: int|
                    0 <= k < now.len() && (mentions((#[trigger] now[k]).0, f) || mentions(
                        now[k].1,
                        f,
                    ));
                if k < i {
                    assert(all.take(i as int)[k] == all[k]);
                }
            }
        }
        i = i + 1;
    }
    assert(all.take(items.len() as int) =~= all);
}

/// Adds the frames that the ready values of a frame close over.
fn add_frame_mentions(frame: &ScopeFrame, out: &mut Vec<FrameId>)
    ensures
        forall|f: FrameId| #[trigger]
            final(out)@.contains(f) <==> old(out)@.contains(f) || frame_mentions(frame@, f),
{
    let ghost all = frame@.slots;
    let mut i: usize = 0;
    while i < frame.slots.len()
        invariant
            i <= frame.slots.len(),
            all == slots_view(frame.slots@),
            forall|f: FrameId| #[trigger]
                out@.contains(f) <==> old(out)@.contains(f) || exists|k: int|
                    0 <= k < i && slot_mentions((#[trigger] all[k]).1, f),
        decreases frame.slots.len() - i,
    {
        let ghost before = out@;
        assert(all[i as int] == (frame.slots@[i as int].0, frame.slots@[i as int].1@));
        match &frame.slots[i].1 {
            BindingSlot::Ready(v) => add_mentions(v, out),
            _ => {},
        }
        assert forall|f: FrameId| #[trigger] out@.contains(f) <==> old(out)@.contains(f) || exists|
            k: int,
        |
            0 <= k < i + 1 && slot_mentions((#[trigger] all[k]).1, f) by {
            assert(before.contains(f) <==> old(out)@.contains(f) || exists|k: int|
                0 <= k < i && slot_mentions((#[trigger] all[k]).1, f));
        }
        i = i + 1;
    }
}

/// How many frames are not among those seen.
pub open spec fn unseen(frames: Seq<(FrameId, SFrame)>, seen: Seq<FrameId>, n: nat) -> nat
    decreases n,
{
    if n == 0 {
        0
    } else {
        unseen(frames, seen, (n - 1) as nat) + if seen.contains(frames[n - 1].0) {
            0nat
        } else {
            1nat
        }
    }
}

proof fn unseen_shrinks(
    frames: Seq<(FrameId, SFrame)>,
    seen: Seq<FrameId>,
    more: Seq<FrameId>,
    at: int,
    n: nat,
)
    requires
        n <= frames.len(),
        forall|f: FrameId| seen.contains(f) ==> more.contains(f),
    ensures
        unseen(frames, more, n) <= unseen(frames, seen, n),
        0 <= at < n && !seen.contains(frames[at].0) && more.contains(frames[at].0) ==> unseen(
            frames,
            more,
            n,
        ) < unseen(frames, seen, n),
    decreases n,
{
    if n > 0 {
        unseen_shrinks(frames, seen, more, at, (n - 1) as nat);
        assert(seen.contains(frames[n - 1].0) ==> more.contains(frames[n - 1].0));
    }
}

pub open spec fn in_arena(env: SEnv, f: FrameId) -> bool {
    exists|i: int| 0 <= i < env.frames.len() && (#[trigger] env.frames[i]).0 == f
}

/// Whether every frame of the arena that a seen frame closes over is seen or waits.
pub open spec fn closed_but(env: SEnv, seen: Seq<FrameId>, waiting: Seq<FrameId>) -> bool {
    forall|i: int, f: FrameId|
        0 <= i < env.frames.len() && seen.contains((#[trigger] env.frames[i]).0)
            && #[trigger] frame_mentions(env.frames[i].1, f) && in_arena(env, f) ==> seen.contains(
            f,
        ) || waiting.contains(f)
}

pub open spec fn roots_in(
    env: SEnv,
    extra: Seq<SValue>,
    seen: Seq<FrameId>,
    waiting: Seq<FrameId>,
) -> bool {
    forall|f: FrameId| #[trigger]
        rooted(env, extra, f) && in_arena(env, f) ==> seen.contains(f) || waiting.contains(f)
}

proof fn seen_is_all(env: SEnv, extra: Seq<SValue>, seen: Seq<FrameId>, f: FrameId, n: nat)
    requires
        closed_but(env, seen, Seq::empty()),
        roots_in(env, extra, seen, Seq::empty()),
        reached(env, extra, f, n),
        in_arena(env, f),
    ensures
        seen.contains(f),
    decreases n,
{
    if n == 0 {
        assert(rooted(env, extra, f));
        assert(seen.contains(f) || Seq::<FrameId>::empty().contains(f));
    } else if reached(env, extra, f, (n - 1) as nat) {
        seen_is_all(env, extra, seen, f, (n - 1) as nat);
    } else {
        let i = choose|i: int|
            0 <= i < env.frames.len() && reached(
                env,
                extra,
                (#[trigger] env.frames[i]).0,
                (n - 1) as nat,
            ) && frame_mentions(env.frames[i].1, f);
        assert(in_arena(env, env.frames[i].0));
        seen_is_all(env, extra, seen, env.frames[i].0, (n - 1) as nat);
        assert(seen.contains(f) || Seq::<FrameId>::empty().contains(f));
    }
}

fn add_roots(roots: &Vec<(FrameId, u64)>, out: &mut Vec<FrameId>)
    ensures
        forall|f: FrameId| #[trigger]
            final(out)@.contains(f) <==> old(out)@.contains(f) || keyed(roots@, f, 0) is Some,
{
    let mut n: usize = roots.len();
    while n > 0
        invariant
            n <= roots.len(),
            forall|f: FrameId| #[trigger]
                out@.contains(f) <==> old(out)@.contains(f) || keyed(roots@, f, n as nat) is Some,
        decreases n,
    {
        let ghost before = out@;
        let ghost later = n as nat;
        n = n - 1;
        out.push(roots[n].0);
        proof {
            assert(out@[before.len() as int] == roots@[n as int].0);
            assert forall|f: FrameId| #[trigger] out@.contains(f) <==> old(out)@.contains(f)
                || keyed(roots@, f, n as nat) is Some by {
                assert(before.contains(f) <==> old(out)@.contains(f) || keyed(
                    roots@,
                    f,
                    later,
                ) is Some);
                if before.contains(f) {
                    let k = choose|k: int| 0 <= k < before.len() && before[k] == f;
                    assert(out@[k] == f);
                }
                if out@.contains(f) && !before.contains(f) {
                    let k = choose|k: int| 0 <= k < out@.len() && out@[k] == f;
                    assert(k == before.len());
                }
            }
        }
    }
}

/// The frames of the arena that can be reached.
fn reach(env: &Env, extra: &Vec<Value>) -> (r: Vec<FrameId>)
    ensures
        forall|f: FrameId|
            in_arena(env@, f) ==> (#[trigger] r@.contains(f) <==> reachable(
                env@,
                values_view(extra@),
                f,
            )),
{
    let ghost e = env@;
    let ghost x = values_view(extra@);
    let mut waiting: Vec<FrameId> = Vec::new();
    add_roots(&env.roots, &mut waiting);
    add_all_mentions(extra, &mut waiting);
    let mut seen: Vec<FrameId> = Vec::new();
    proof {
        assert forall|f: FrameId| #[trigger] waiting@.contains(f) implies reachable(e, x, f) by {
            assert(reached(e, x, f, 0));
        }
        assert(roots_in(e, x, seen@, waiting@));
    }
    while waiting.len() > 0
        invariant
            e == env@,
            x == values_view(extra@),
            e.frames.len() == env.frames@.len(),
            roots_in(e, x, seen@, waiting@),
            closed_but(e, seen@, waiting@),
            forall|f: FrameId| #[trigger] waiting@.contains(f) ==> reachable(e, x, f),
            forall|f: FrameId| #[trigger] seen@.contains(f) ==> reachable(e, x, f),
        decreases unseen(e.frames, seen@, e.frames.len()), waiting.len(),
    {
        let ghost before = waiting@;
        let ghost was_seen = seen@;
        let id = match waiting.pop() {
            Some(id) => id,
            None => {
                return seen;
            },
        };
        proof {
            assert(before[before.len() - 1] == id);
            assert(before.contains(id));
            assert forall|f: FrameId| before.contains(f) <==> waiting@.contains(f) || f == id by {
                if before.contains(f) {
                    let k = choose|k: int| 0 <= k < before.len() && before[k] == f;
                    if k < before.len() - 1 {
                        assert(waiting@[k] == f);
                    }
                }
                if waiting@.contains(f) {
                    let k = choose|k: int| 0 <= k < waiting@.len() && waiting@[k] == f;
                    assert(before[k] == f);
                }
            }
        }
        proof {
            assert forall|f: FrameId| #[trigger] waiting@.contains(f) implies reachable(
                e,
                x,
                f,
            ) by {
                assert(before.contains(f));
            }
        }
        if has_frame(&seen, id) {
            continue;
        }
        let ghost start = waiting@;
        let mut present = false;
        let ghost mut at: int = 0;
        let mut i: usize = 0;
        while i < env.frames.len()
            invariant
                i <= env.frames.len(),
                e == env@,
                x == values_view(extra@),
                e.frames.len() == env.frames@.len(),
                reachable(e, x, id),
                forall|f: FrameId| start.contains(f) ==> #[trigger] waiting@.contains(f),
                forall|f: FrameId| #[trigger] waiting@.contains(f) ==> reachable(e, x, f),
                !present ==> waiting@ == start,
                present ==> 0 <= at < e.frames.len() && e.frames[at].0 == id,
                !present ==> forall|k: int| 0 <= k < i ==> (#[trigger] e.frames[k]).0 != id,
                forall|k: int, f: FrameId|
                    0 <= k < i && (#[trigger] e.frames[k]).0 == id && #[trigger] frame_mentions(
                        e.frames[k].1,
                        f,
                    ) ==> waiting@.contains(f),
            decreases env.frames.len() - i,
        {
            assert(e.frames[i as int] == (env.frames@[i as int].0, env.frames@[i as int].1@));
            if env.frames[i].0 == id {
                let ghost now = waiting@;
                add_frame_mentions(&env.frames[i].1, &mut waiting);
                present = true;
                proof {
                    at = i as int;
                    assert forall|f: FrameId| #[trigger] waiting@.contains(f) implies reachable(
                        e,
                        x,
                        f,
                    ) by {
                        if !now.contains(f) {
                            let n = choose|n: nat| reached(e, x, id, n);
                            assert(frame_mentions(e.frames[i as int].1, f));
                            assert(reached(e, x, e.frames[i as int].0, n));
                            assert(reached(e, x, f, n + 1));
                        }
                    }
                }
            }
            i = i + 1;
        }
        if present {
            seen.push(id);
            proof {
                assert(seen@[was_seen.len() as int] == id);
                assert forall|f: FrameId| seen@.contains(f) <==> was_seen.contains(f) || f == id by {
                    if was_seen.contains(f) {
                        let k = choose|k: int| 0 <= k < was_seen.len() && was_seen[k] == f;
                        assert(seen@[k] == f);
                    }
                }
                unseen_shrinks(e.frames, was_seen, seen@, at, e.frames.len());
            }
        } else {
            proof {
                assert(!in_arena(e, id));
            }
        }
    }
    proof {
        assert(waiting@ =~= Seq::empty());
        assert forall|f: FrameId| in_arena(e, f) implies (#[trigger] seen@.contains(f)
            <==> reachable(e, x, f)) by {
            if reachable(e, x, f) {
                let n = choose|n: nat| reached(e, x, f, n);
                seen_is_all(e, x, seen@, f, n);
            }
        }
    }
    seen
}

impl Env {
    /// Whether enough frames have been allocated since the last collection for another one.
    pub fn frame_collection_due(&self) -> (r: bool)
        ensures
            r == collection_due(self@),
    {
        let least = if self.interval < FRAME_COLLECTION_THRESHOLD {
            FRAME_COLLECTION_THRESHOLD
        } else {
            self.interval
        };
        self.allocations >= least
    }

    /// Reclaims the frames that neither a scope in force nor a given value can reach, and tells how
    /// many they were.
    pub fn collect_frames(&mut self, extra: &Vec<Value>) -> (r: usize)
        ensures
            final(self)@ == collected(old(self)@, values_view(extra@)),
            r == old(self)@.frames.len() - final(self)@.frames.len(),
    {
        proof {
            reveal(collected);
        }
        let ghost e = self@;
        let ghost x = values_view(extra@);
        let ghost keep = kept_frame(e, x);
        let interval = if self.interval < FRAME_COLLECTION_THRESHOLD {
            FRAME_COLLECTION_THRESHOLD
        } else {
            self.interval
        };
        let reached_ids = reach(self, extra);
        let before = self.frames.len();
        let mut kept: Vec<(FrameId, ScopeFrame)> = Vec::new();
        let mut rest: Vec<(FrameId, ScopeFrame)> = Vec::new();
        std::mem::swap(&mut rest, &mut self.frames);
        let ghost all = frames_view(rest@);
        proof {
            assert(all == e.frames);
            assert(all.skip(all.len() as int).filter(keep) =~= Seq::empty()) by {
                reveal(Seq::filter);
            }
            assert(frames_view(kept@).reverse() =~= Seq::empty());
        }
        while rest.len() > 0
            invariant
                all == e.frames,
                x == values_view(extra@),
                keep == kept_frame(e, x),
                rest@.len() <= all.len(),
                frames_view(rest@) == all.take(rest@.len() as int),
                frames_view(kept@).reverse() == all.skip(rest@.len() as int).filter(keep),
                forall|f: FrameId|
                    in_arena(e, f) ==> (#[trigger] reached_ids@.contains(f) <==> reachable(
                        e,
                        x,
                        f,
                    )),
            decreases rest.len(),
        {
            let ghost n = rest@.len() as int;
            let ghost listed = frames_view(rest@);
            let ghost kept_before = frames_view(kept@);
            match rest.pop() {
                Some(entry) => {
                    let ghost model = (entry.0, entry.1@);
                    proof {
                        assert(listed[n - 1] == model);
                        assert(model == all[n - 1]);
                        assert(frames_view(rest@) =~= all.take(n - 1));
                        assert(in_arena(e, model.0)) by {
                            assert(e.frames[n - 1].0 == model.0);
                        }
                        filter_front(all, keep, n - 1);
                    }
                    if has_frame(&reached_ids, entry.0) {
                        kept.push(entry);
                        proof {
                            assert(frames_view(kept@) =~= kept_before.push(model));
                            assert(frames_view(kept@).reverse() =~= seq![model]
                                + kept_before.reverse());
                        }
                    }
                },
                None => {},
            }
        }
        assert(all.skip(0) =~= all);
        let ghost backwards = frames_view(kept@);
        let kept = reversed(kept);
        assert(frames_view(kept@) =~= backwards.reverse());
        let left = kept.len();
        self.frames = kept;
        self.allocations = 0;
        proof {
            filter_no_longer(all, keep);
        }
        let reclaimed = before - left;
        self.interval = if reclaimed < before / 4 {
            if interval > u64::MAX / 2 {
                u64::MAX
            } else {
                2 * interval
            }
        } else if (left as u64) < FRAME_COLLECTION_THRESHOLD {
            FRAME_COLLECTION_THRESHOLD
        } else {
            left as u64
        };
        reclaimed
    }
}

fn reversed(given: Vec<(FrameId, ScopeFrame)>) -> (r: Vec<(FrameId, ScopeFrame)>)
    ensures
        frames_view(r@) == frames_view(given@).reverse(),
{
    let ghost all = frames_view(given@);
    let mut rest = given;
    let mut r: Vec<(FrameId, ScopeFrame)> = Vec::new();
    while rest.len() > 0
        invariant
            rest@.len() <= all.len(),
            frames_view(rest@) == all.take(rest@.len() as int),
            frames_view(r@) =~= all.skip(rest@.len() as int).reverse(),
        decreases rest.len(),
    {
        let ghost n = rest@.len() as int;
        let ghost listed = frames_view(rest@);
        let ghost so_far = frames_view(r@);
        match rest.pop() {
            Some(entry) => {
                let ghost model = (entry.0, entry.1@);
                r.push(entry);
                proof {
                    assert(listed[n - 1] == model);
                    assert(frames_view(rest@) =~= all.take(n - 1));
                    assert(frames_view(r@) =~= so_far.push(model));
                    assert(all.skip(n - 1) =~= seq![model] + all.skip(n));
                    assert(all.skip(n - 1).reverse() =~= all.skip(n).reverse().push(model));
                }
            },
            None => {},
        }
    }
    assert(all.skip(0) =~= all);
    r
}

proof fn filter_front(
    items: Seq<(FrameId, SFrame)>,
    keep: spec_fn((FrameId, SFrame)) -> bool,
    i: int,
)
    requires
        0 <= i < items.len(),
    ensures
        items.skip(i).filter(keep) == if keep(items[i]) {
            seq![items[i]] + items.skip(i + 1).filter(keep)
        } else {
            items.skip(i + 1).filter(keep)
        },
{
    let one = seq![items[i]];
    assert(items.skip(i) =~= one + items.skip(i + 1));
    Seq::filter_distributes_over_add(one, items.skip(i + 1), keep);
    reveal(Seq::filter);
    assert(one.drop_last() =~= Seq::empty());
    assert(Seq::<(FrameId, SFrame)>::empty().filter(keep) =~= Seq::empty());
    if keep(items[i]) {
        assert(one.filter(keep) =~= one);
    } else {
        assert(one.filter(keep) =~= Seq::empty());
    }
}

proof fn filter_no_longer(
    items: Seq<(FrameId, SFrame)>,
    keep: spec_fn((FrameId, SFrame)) -> bool,
)
    ensures
        items.filter(keep).len() <= items.len(),
{
    broadcast use vstd::seq_lib::group_filter_ensures;
}

proof fn filter_within(
    items: Seq<(FrameId, SFrame)>,
    keep: spec_fn((FrameId, SFrame)) -> bool,
    i: int,
)
    requires
        0 <= i < items.filter(keep).len(),
    ensures
        exists|k: int| 0 <= k < items.len() && #[trigger] items[k] == items.filter(keep)[i],
    decreases items.len(),
{
    reveal(Seq::filter);
    let rest = items.drop_last();
    if i < rest.filter(keep).len() {
        filter_within(rest, keep, i);
        let k = choose|k: int| 0 <= k < rest.len() && #[trigger] rest[k] == rest.filter(keep)[i];
        assert(items[k] == items.filter(keep)[i]);
    } else {
        assert(items[items.len() - 1] == items.filter(keep)[i]);
    }
}

/// A collection keeps every frame that can be reached, and no other.
pub proof fn collection_keeps_exactly_the_reachable(env: SEnv, extra: Seq<SValue>, f: FrameId)
    ensures
        in_arena(collected(env, extra), f) <==> in_arena(env, f) && reachable(env, extra, f),
{
    reveal(collected);
    let keep = kept_frame(env, extra);
    let kept = env.frames.filter(keep);
    let after = collected(env, extra);
    broadcast use vstd::seq_lib::group_filter_ensures;
    assert(after.frames == kept);
    if in_arena(after, f) {
        let i = choose|i: int| 0 <= i < after.frames.len() && (#[trigger] after.frames[i]).0 == f;
        assert(keep(kept[i]));
        filter_within(env.frames, keep, i);
        let k = choose|k: int| 0 <= k < env.frames.len() && #[trigger] env.frames[k] == kept[i];
        assert(env.frames[k].0 == f);
    }
    if in_arena(env, f) && reachable(env, extra, f) {
        let k = choose|k: int| 0 <= k < env.frames.len() && (#[trigger] env.frames[k]).0 == f;
        assert(keep(env.frames[k]));
        assert(kept.contains(env.frames[k]));
        let i = choose|i: int| 0 <= i < kept.len() && kept[i] == env.frames[k];
        assert(after.frames[i].0 == f);
    }
}

} // verus!
