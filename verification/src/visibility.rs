//! What names stand for: what a module defines is what it exports, what is required is visible under
//! the name of its module, and definitions leave everything else that is visible as it was.

use vstd::prelude::*;

use crate::ast::{BindingId, FrameId, SDeclBody, SValue};
use crate::bindings::SBindings;
use crate::env::{keyed, keyed_with_key, ready_values, SEnv, SFrame, SSlot};
use crate::frames::defined;
use crate::holding::keyed_is_among;
use crate::modules::{
    all_offered, already_among, dotted, exports, exports_under, frame_names, named_exports,
    qualified_as,
};
use crate::program::{all_installed, module_entered, module_loaded, one_installed, Runner, SProgram};
use crate::text::{ordered, strictly_sorted, with_name, with_name_sorts};
use crate::values::values_equal;
use crate::world::SWorld;

verus! {

broadcast use vstd::seq_lib::group_seq_properties;

/// Whether a frame binds a name to a value.
pub open spec fn frame_binds(f: SFrame, name: Seq<char>, v: SValue) -> bool {
    keyed(f.names, name, 0) matches Some(ids) && ids_bind(f, ids, v)
}

pub open spec fn ids_bind(f: SFrame, ids: Seq<BindingId>, v: SValue) -> bool {
    exists|k: int|
        0 <= k < ids.len() && keyed(f.slots, #[trigger] ids[k], 0) == Some(SSlot::Ready(v))
}

/// Whether a scope in force binds a name to a value.
pub open spec fn binds(env: SEnv, name: Seq<char>, v: SValue) -> bool {
    exists|s: int| 0 <= s < env.scopes.len() && scope_binds(env, #[trigger] env.scopes[s], name, v)
}

pub open spec fn scope_binds(env: SEnv, scope: FrameId, name: Seq<char>, v: SValue) -> bool {
    env.frame(scope) matches Some(f) && frame_binds(f, name, v)
}

proof fn ready_values_are_bound(f: SFrame, ids: Seq<BindingId>, v: SValue)
    ensures
        ready_values(f, ids).contains(v) <==> ids_bind(f, ids, v),
    decreases ids.len(),
{
    if ids.len() > 0 {
        let rest = ids.drop_last();
        ready_values_are_bound(f, rest, v);
        let found = ready_values(f, ids);
        let before = ready_values(f, rest);
        if found.contains(v) {
            let i = choose|i: int| 0 <= i < found.len() && found[i] == v;
            if i < before.len() {
                assert(before[i] == v);
                let k = choose|k: int|
                    0 <= k < rest.len() && keyed(f.slots, #[trigger] rest[k], 0) == Some(
                        SSlot::Ready(v),
                    );
                assert(ids[k] == rest[k]);
            } else {
                assert(ids[ids.len() - 1] == ids.last());
            }
        }
        if ids_bind(f, ids, v) {
            let k = choose|k: int|
                0 <= k < ids.len() && keyed(f.slots, #[trigger] ids[k], 0) == Some(
                    SSlot::Ready(v),
                );
            if k < rest.len() {
                assert(rest[k] == ids[k]);
                let i = choose|i: int| 0 <= i < before.len() && before[i] == v;
                assert(found[i] == v);
            } else {
                assert(found.last() == v);
                assert(found[found.len() - 1] == v);
            }
        }
    }
}

proof fn candidates_are_bound(env: SEnv, name: Seq<char>, v: SValue, n: nat)
    requires
        n <= env.scopes.len(),
    ensures
        env.candidates_in(name, n).contains(v) <==> exists|s: int|
            0 <= s < n && scope_binds(env, #[trigger] env.scopes[s], name, v),
    decreases n,
{
    if n > 0 {
        let m = (n - 1) as nat;
        candidates_are_bound(env, name, v, m);
        let scope = env.scopes[m as int];
        let here = env.values_in(scope, name);
        let rest = env.candidates_in(name, m);
        if env.frame(scope) is Some {
            let f = env.frame(scope)->Some_0;
            if keyed(f.names, name, 0) is Some {
                ready_values_are_bound(f, keyed(f.names, name, 0)->Some_0, v);
            }
        }
        assert(here.contains(v) <==> scope_binds(env, scope, name, v));
        let all = here + rest;
        if all.contains(v) {
            let i = choose|i: int| 0 <= i < all.len() && all[i] == v;
            if i < here.len() {
                assert(here[i] == v);
            } else {
                assert(rest[i - here.len()] == v);
            }
        }
        if here.contains(v) {
            let i = choose|i: int| 0 <= i < here.len() && here[i] == v;
            assert(all[i] == v);
        }
        if rest.contains(v) {
            let i = choose|i: int| 0 <= i < rest.len() && rest[i] == v;
            assert(all[here.len() + i] == v);
        }
    }
}

/// The candidates of a name are the values that scopes in force bind to it, no more and no fewer.
pub proof fn candidates_are_what_scopes_bind(env: SEnv, name: Seq<char>, v: SValue)
    ensures
        env.candidates(name).contains(v) <==> binds(env, name, v),
{
    reveal(SEnv::candidates);
    candidates_are_bound(env, name, v, env.scopes.len());
}

/// Whether a value belongs to the language: a builtin function, a type as such, or the declaration
/// of a native type.
pub open spec fn of_the_language(v: SValue) -> bool {
    v is BuiltinFn || v is Type || (v matches SValue::TypeDecl(d) && d.body == SDeclBody::Native)
}

proof fn exports_of_a_name(name: Seq<char>, values: Seq<SValue>, other: Seq<char>, v: SValue)
    ensures
        named_exports(name, values).contains((other, v)) <==> other == name && values.contains(v)
            && !of_the_language(v),
    decreases values.len(),
{
    if values.len() > 0 {
        let rest = values.drop_last();
        exports_of_a_name(name, rest, other, v);
        let before = named_exports(name, rest);
        let found = named_exports(name, values);
        if found.contains((other, v)) {
            let i = choose|i: int| 0 <= i < found.len() && found[i] == (other, v);
            if i < before.len() {
                assert(before[i] == (other, v));
                let k = choose|k: int| 0 <= k < rest.len() && rest[k] == v;
                assert(values[k] == v);
            } else {
                assert(values[values.len() - 1] == v);
            }
        }
        if other == name && values.contains(v) && !of_the_language(v) {
            let k = choose|k: int| 0 <= k < values.len() && values[k] == v;
            if k < rest.len() {
                assert(rest[k] == v);
                let i = choose|i: int| 0 <= i < before.len() && before[i] == (other, v);
                assert(found[i] == (other, v));
            } else {
                assert(found[found.len() - 1] == (other, v));
            }
        }
    }
}

proof fn exports_of_names(f: SFrame, names: Seq<Seq<char>>, name: Seq<char>, v: SValue)
    ensures
        exports_under(f, names).contains((name, v)) <==> names.contains(name) && !dotted(name)
            && frame_binds(f, name, v) && !of_the_language(v),
    decreases names.len(),
{
    if names.len() > 0 {
        let rest = names.drop_last();
        let last = names.last();
        exports_of_names(f, rest, name, v);
        let here = if dotted(last) {
            Seq::empty()
        } else {
            match keyed(f.names, last, 0) {
                Some(ids) => named_exports(last, ready_values(f, ids)),
                None => Seq::empty(),
            }
        };
        let before = exports_under(f, rest);
        let all = before + here;
        if keyed(f.names, last, 0) is Some {
            let ids = keyed(f.names, last, 0)->Some_0;
            exports_of_a_name(last, ready_values(f, ids), name, v);
            ready_values_are_bound(f, ids, v);
        }
        assert(here.contains((name, v)) <==> name == last && !dotted(last) && frame_binds(
            f,
            name,
            v,
        ) && !of_the_language(v));
        if all.contains((name, v)) {
            let i = choose|i: int| 0 <= i < all.len() && all[i] == (name, v);
            if i < before.len() {
                assert(before[i] == (name, v));
                let k = choose|k: int| 0 <= k < rest.len() && rest[k] == name;
                assert(names[k] == name);
            } else {
                assert(here[i - before.len()] == (name, v));
                assert(names[names.len() - 1] == name);
            }
        }
        if here.contains((name, v)) {
            let i = choose|i: int| 0 <= i < here.len() && here[i] == (name, v);
            assert(all[before.len() + i] == (name, v));
        }
        if before.contains((name, v)) {
            let i = choose|i: int| 0 <= i < before.len() && before[i] == (name, v);
            assert(all[i] == (name, v));
        }
        if names.contains(name) && name != last {
            let k = choose|k: int| 0 <= k < names.len() && names[k] == name;
            assert(rest[k] == name);
        }
    }
}

proof fn names_can_be_ordered(names: Seq<Seq<char>>) -> (q: Seq<Seq<char>>)
    ensures
        strictly_sorted(q),
        q.to_set() == names.to_set(),
    decreases names.len(),
{
    if names.len() == 0 {
        let q: Seq<Seq<char>> = Seq::empty();
        assert(q.to_set() =~= names.to_set());
        q
    } else {
        let rest = names.drop_last();
        let q = names_can_be_ordered(rest);
        let last = names.last();
        assert(names =~= rest.push(last));
        if q.contains(last) {
            assert(q.to_set().contains(last));
            assert(names.to_set() =~= q.to_set());
            q
        } else {
            with_name_sorts(q, last);
            let r = with_name(q, last);
            assert forall|n: Seq<char>| #[trigger] r.to_set().contains(n) <==> names.to_set().contains(
                n,
            ) by {
                assert(q.to_set().contains(n) <==> rest.to_set().contains(n));
            }
            assert(r.to_set() =~= names.to_set());
            r
        }
    }
}

/// A module exports exactly what its outermost scope binds to names without a dot, its declared
/// types among them, but for what belongs to the language.
pub proof fn modules_export_what_they_define(env: SEnv, name: Seq<char>, v: SValue)
    ensures
        exports(env).contains((name, v)) <==> env.scopes.len() > 0 && scope_binds(
            env,
            env.scopes[0],
            name,
            v,
        ) && !dotted(name) && !of_the_language(v),
{
    reveal(exports);
    if env.scopes.len() > 0 && env.frame(env.scopes[0]) is Some {
        let f = env.frame(env.scopes[0])->Some_0;
        let all = frame_names(f);
        let q = names_can_be_ordered(all);
        let o = ordered(all.to_set());
        assert(strictly_sorted(q) && q.to_set() == all.to_set());
        assert(strictly_sorted(o) && o.to_set() == all.to_set());
        exports_of_names(f, o, name, v);
        if frame_binds(f, name, v) {
            let k = keyed_is_among(f.names, name, 0);
            assert(all[k] == name);
            assert(all.to_set().contains(name));
            assert(o.to_set().contains(name));
            assert(o.contains(name));
        }
    }
}

/// Whether the innermost scope can take definitions: its frame is there and holds no binding whose
/// identity is still to be given out, and so many identities are left.
pub open spec fn takes_definitions(env: SEnv, table: SBindings, n: nat) -> bool {
    &&& env.scopes.len() > 0
    &&& env.frame(env.scopes.last()) is Some
    &&& frame_older(env.frame(env.scopes.last())->Some_0, table.next)
    &&& table.next + n < u64::MAX
}

pub open spec fn frame_older(f: SFrame, next: u64) -> bool {
    &&& forall|id: BindingId| (#[trigger] keyed(f.slots, id, 0)) is Some ==> id.0 < next
    &&& forall|name: Seq<char>, k: int|
        #![trigger f.ids(name)[k]]
        0 <= k < f.ids(name).len() ==> f.ids(name)[k].0 < next
}

/// A definition binds its name to its value, and every other name as it was bound before.
pub proof fn definitions_bind_their_names(
    env: SEnv,
    table: SBindings,
    name: Seq<char>,
    v: SValue,
    n: nat,
)
    requires
        takes_definitions(env, table, n + 1),
    ensures
        takes_definitions(defined(env, table, name, v).0, defined(env, table, name, v).1, n),
        defined(env, table, name, v).0.scopes == env.scopes,
        binds(defined(env, table, name, v).0, name, v),
        forall|other: Seq<char>, x: SValue| #[trigger]
            binds(defined(env, table, name, v).0, other, x) <==> binds(env, other, x) || (other
                == name && x == v),
{
    reveal(defined);
    reveal(SEnv::readied);
    let top = env.scopes.last();
    let f = env.frame(top)->Some_0;
    let id = BindingId(table.next);
    let g = f.readied(id, name, v);
    let (after, t) = defined(env, table, name, v);
    let ids = f.ids(name);
    assert(!ids.contains(id)) by {
        if ids.contains(id) {
            let k = choose|k: int| 0 <= k < ids.len() && ids[k] == id;
            assert(f.ids(name)[k].0 < table.next);
        }
    }
    assert(keyed(f.slots, id, 0) is None);
    assert forall|k: BindingId| #[trigger] keyed(g.slots, k, 0) == if k == id {
        Some(SSlot::Ready(v))
    } else {
        keyed(f.slots, k, 0)
    } by {
        keyed_with_key(f.slots, id, SSlot::Ready(v), k, 0);
    }
    assert forall|other: Seq<char>| #[trigger] keyed(g.names, other, 0) == if other == name {
        Some(ids.push(id))
    } else {
        keyed(f.names, other, 0)
    } by {
        keyed_with_key(f.names, name, ids.push(id), other, 0);
    }
    assert forall|other: Seq<char>, x: SValue| #[trigger] frame_binds(g, other, x) <==> frame_binds(
        f,
        other,
        x,
    ) || (other == name && x == v) by {
        if frame_binds(g, other, x) {
            let them = keyed(g.names, other, 0)->Some_0;
            let k = choose|k: int|
                0 <= k < them.len() && keyed(g.slots, #[trigger] them[k], 0) == Some(
                    SSlot::Ready(x),
                );
            if other == name {
                if k < ids.len() {
                    assert(f.ids(name)[k].0 < table.next);
                    assert(them[k] == ids[k]);
                    assert(keyed(f.names, name, 0) == Some(ids));
                }
            } else {
                assert(f.ids(other)[k] == them[k]);
                assert(f.ids(other)[k].0 < table.next);
            }
        }
        if frame_binds(f, other, x) {
            let them = keyed(f.names, other, 0)->Some_0;
            let k = choose|k: int|
                0 <= k < them.len() && keyed(f.slots, #[trigger] them[k], 0) == Some(
                    SSlot::Ready(x),
                );
            assert(f.ids(other)[k].0 < table.next);
            let now = keyed(g.names, other, 0)->Some_0;
            assert(now[k] == them[k]);
            assert(keyed(g.slots, now[k], 0) == Some(SSlot::Ready(x)));
        }
        if other == name && x == v {
            let now = keyed(g.names, name, 0)->Some_0;
            assert(now[ids.len() as int] == id);
            assert(keyed(g.slots, now[ids.len() as int], 0) == Some(SSlot::Ready(v)));
        }
    }
    assert forall|at: FrameId| #[trigger] after.frame(at) == if at == top {
        Some(g)
    } else {
        env.frame(at)
    } by {
        keyed_with_key(env.frames, top, g, at, 0);
    }
    assert(frame_older(g, t.next)) by {
        assert forall|k: BindingId| (#[trigger] keyed(g.slots, k, 0)) is Some implies k.0 < t.next by {
            if k != id {
                assert(keyed(f.slots, k, 0) is Some);
            }
        }
        assert forall|other: Seq<char>, k: int|
            #![trigger g.ids(other)[k]]
            0 <= k < g.ids(other).len() implies g.ids(other)[k].0 < t.next by {
            if other == name {
                if k < ids.len() {
                    assert(f.ids(name)[k].0 < table.next);
                }
            } else {
                assert(g.ids(other) == f.ids(other));
                assert(f.ids(other)[k].0 < table.next);
            }
        }
    }
    assert forall|other: Seq<char>, x: SValue| #[trigger] binds(after, other, x) <==> binds(
        env,
        other,
        x,
    ) || (other == name && x == v) by {
        if binds(after, other, x) {
            let s = choose|s: int|
                0 <= s < after.scopes.len() && scope_binds(
                    after,
                    #[trigger] after.scopes[s],
                    other,
                    x,
                );
            assert(env.scopes[s] == after.scopes[s]);
            if !(other == name && x == v) {
                assert(scope_binds(env, env.scopes[s], other, x));
            }
        }
        if binds(env, other, x) {
            let s = choose|s: int|
                0 <= s < env.scopes.len() && scope_binds(env, #[trigger] env.scopes[s], other, x);
            assert(scope_binds(after, after.scopes[s], other, x));
        }
        if other == name && x == v {
            assert(frame_binds(g, name, v));
            assert(scope_binds(after, after.scopes[after.scopes.len() - 1], name, v));
        }
    }
}

/// Whether a name is bound to a value, or to one that equals it.
pub open spec fn stands_for(env: SEnv, name: Seq<char>, v: SValue) -> bool {
    exists|x: SValue| #[trigger] binds(env, name, x) && (x == v || values_equal(x, v))
}

/// Definitions that are offered are visible afterwards, each under its name, everything that was
/// visible stays so, and nothing else is.
pub proof fn offered_definitions_are_visible(
    env: SEnv,
    table: SBindings,
    items: Seq<(Seq<char>, SValue)>,
    n: nat,
)
    requires
        takes_definitions(env, table, n + items.len()),
    ensures
        takes_definitions(all_offered(env, table, items).0, all_offered(env, table, items).1, n),
        all_offered(env, table, items).0.scopes == env.scopes,
        forall|i: int|
            0 <= i < items.len() ==> stands_for(
                all_offered(env, table, items).0,
                (#[trigger] items[i]).0,
                items[i].1,
            ),
        forall|name: Seq<char>, x: SValue|
            binds(env, name, x) ==> #[trigger] binds(all_offered(env, table, items).0, name, x),
        forall|name: Seq<char>, x: SValue| #[trigger]
            binds(all_offered(env, table, items).0, name, x) ==> binds(env, name, x)
                || items.contains((name, x)),
    decreases items.len(),
{
    if items.len() > 0 {
        let (name, v) = items[0];
        let rest = items.drop_first();
        let (e, t) = if already_among(env.candidates(name), v) {
            (env, table)
        } else {
            defined(env, table, name, v)
        };
        if already_among(env.candidates(name), v) {
            let found = env.candidates(name);
            let i = choose|i: int| 0 <= i < found.len() && values_equal(#[trigger] found[i], v);
            candidates_are_what_scopes_bind(env, name, found[i]);
            assert(found.contains(found[i]));
            assert(binds(env, name, found[i]));
        } else {
            definitions_bind_their_names(env, table, name, v, (n + rest.len()) as nat);
            assert(binds(e, name, v));
        }
        assert(stands_for(e, name, v));
        offered_definitions_are_visible(e, t, rest, n);
        let after = all_offered(env, table, items).0;
        assert(after == all_offered(e, t, rest).0);
        assert forall|i: int| 0 <= i < items.len() implies stands_for(
            after,
            (#[trigger] items[i]).0,
            items[i].1,
        ) by {
            if i == 0 {
                let x = choose|x: SValue| #[trigger]
                    binds(e, name, x) && (x == v || values_equal(x, v));
                assert(binds(after, name, x));
            } else {
                assert(items[i] == rest[i - 1]);
            }
        }
        assert forall|other: Seq<char>, x: SValue| binds(env, other, x) implies #[trigger] binds(
            after,
            other,
            x,
        ) by {
            assert(binds(e, other, x));
        }
        assert forall|other: Seq<char>, x: SValue| #[trigger] binds(after, other, x) implies binds(
            env,
            other,
            x,
        ) || items.contains((other, x)) by {
            if rest.contains((other, x)) {
                let k = choose|k: int| 0 <= k < rest.len() && rest[k] == (other, x);
                assert(items[k + 1] == (other, x));
            } else {
                assert(binds(e, other, x));
                if !binds(env, other, x) {
                    assert(items[0] == (other, x));
                }
            }
        }
    }
}

/// The name that a definition of a module has outside it.
pub open spec fn qualified(module: Seq<char>, name: Seq<char>) -> Seq<char> {
    module + "."@ + name
}

/// Whether every definition without a dot in its name is visible under the name of its module.
pub open spec fn all_visible_from(
    env: SEnv,
    module: Seq<char>,
    defs: Seq<(Seq<char>, SValue)>,
) -> bool {
    forall|i: int|
        0 <= i < defs.len() && !dotted((#[trigger] defs[i]).0) ==> stands_for(
            env,
            qualified(module, defs[i].0),
            defs[i].1,
        )
}

/// What a loaded module defines is visible under its name to what requires it.
pub proof fn required_definitions_are_visible(
    w: SWorld,
    module: Seq<char>,
    defs: Seq<(Seq<char>, SValue)>,
    n: nat,
)
    requires
        takes_definitions(w.env, w.table, n + defs.len()),
    ensures
        all_visible_from(one_installed(w, module, defs).env, module, defs),
        takes_definitions(
            one_installed(w, module, defs).env,
            one_installed(w, module, defs).table,
            n,
        ),
        forall|name: Seq<char>, x: SValue|
            binds(w.env, name, x) ==> #[trigger] binds(one_installed(w, module, defs).env, name, x),
{
    let items = qualified_as(module, defs);
    offered_definitions_are_visible(w.env, w.table, items, n);
    let env = one_installed(w, module, defs).env;
    assert forall|i: int| 0 <= i < defs.len() && !dotted((#[trigger] defs[i]).0) implies stands_for(
        env,
        qualified(module, defs[i].0),
        defs[i].1,
    ) by {
        assert(stands_for(env, items[i].0, items[i].1));
    }
}

/// How many definitions loaded modules have from `i` on.
pub open spec fn definitions_from(
    loaded: Seq<(Seq<char>, Seq<(Seq<char>, SValue)>)>,
    i: nat,
) -> nat
    decreases loaded.len() - i,
{
    if i >= loaded.len() {
        0
    } else {
        loaded[i as int].1.len() + definitions_from(loaded, i + 1)
    }
}

proof fn installing_keeps_what_is_visible(
    env: SEnv,
    table: SBindings,
    loaded: Seq<(Seq<char>, Seq<(Seq<char>, SValue)>)>,
    i: nat,
)
    requires
        takes_definitions(env, table, definitions_from(loaded, i)),
    ensures
        forall|name: Seq<char>, x: SValue|
            binds(env, name, x) ==> #[trigger] binds(
                all_installed(env, table, loaded, i).0,
                name,
                x,
            ),
    decreases loaded.len() - i,
{
    if i < loaded.len() {
        let items = qualified_as(loaded[i as int].0, loaded[i as int].1);
        let n = definitions_from(loaded, i + 1);
        offered_definitions_are_visible(env, table, items, n);
        let (e, t) = all_offered(env, table, items);
        installing_keeps_what_is_visible(e, t, loaded, i + 1);
        assert(all_installed(env, table, loaded, i) == all_installed(e, t, loaded, i + 1));
        assert forall|name: Seq<char>, x: SValue| binds(env, name, x) implies #[trigger] binds(
            all_installed(env, table, loaded, i).0,
            name,
            x,
        ) by {
            assert(binds(e, name, x));
            assert(binds(all_installed(e, t, loaded, i + 1).0, name, x));
        }
    }
}

/// The world of what requires a module, once the module has been run.
pub open spec fn returned_to(w: SWorld, ran: SWorld, module: Seq<char>) -> SWorld {
    SWorld {
        env: SEnv { module: w.env.module, ..ran.env.call_unscoped(w.env.scopes) },
        modules: ran.modules.finished(module, exports(ran.env)),
        ..ran
    }
}

/// Once a module has been run, all that it defined at its outermost scope without a dot in its name
/// is visible to what requires it under the name of the module, its declared types like its values.
pub proof fn loading_makes_definitions_visible(
    w: SWorld,
    module: Seq<char>,
    p: SProgram,
    run: Runner,
)
    requires
        run(module_entered(w, module), p).1 is Ok,
        ({
            let ran = run(module_entered(w, module), p).0;
            let back = returned_to(w, ran, module);
            takes_definitions(
                back.env,
                back.table,
                (definitions_from(back.modules.loaded, 0) + exports(ran.env).len()) as nat,
            )
        }),
    ensures
        module_loaded(w, module, p, run).1 is Ok,
        ({
            let ran = run(module_entered(w, module), p).0;
            let after = module_loaded(w, module, p, run).0.env;
            forall|name: Seq<char>, v: SValue|
                ran.env.scopes.len() > 0 && #[trigger] scope_binds(
                    ran.env,
                    ran.env.scopes[0],
                    name,
                    v,
                ) && !dotted(name) && !of_the_language(v) ==> stands_for(
                    after,
                    qualified(module, name),
                    v,
                )
        }),
{
    reveal(module_loaded);
    let ran = run(module_entered(w, module), p).0;
    let back = returned_to(w, ran, module);
    let defs = exports(ran.env);
    let n = definitions_from(back.modules.loaded, 0);
    required_definitions_are_visible(back, module, defs, n);
    let w2 = one_installed(back, module, defs);
    assert(w2.modules.loaded == back.modules.loaded);
    installing_keeps_what_is_visible(w2.env, w2.table, w2.modules.loaded, 0);
    let after = module_loaded(w, module, p, run).0.env;
    assert(after == all_installed(w2.env, w2.table, w2.modules.loaded, 0).0);
    assert forall|name: Seq<char>, v: SValue|
        ran.env.scopes.len() > 0 && #[trigger] scope_binds(
            ran.env,
            ran.env.scopes[0],
            name,
            v,
        ) && !dotted(name) && !of_the_language(v) implies stands_for(
        after,
        qualified(module, name),
        v,
    ) by {
        modules_export_what_they_define(ran.env, name, v);
        let i = choose|i: int| 0 <= i < defs.len() && defs[i] == (name, v);
        assert(stands_for(w2.env, qualified(module, defs[i].0), defs[i].1));
        let x = choose|x: SValue| #[trigger]
            binds(w2.env, qualified(module, name), x) && (x == v || values_equal(x, v));
        assert(binds(after, qualified(module, name), x));
    }
}

} // verus!
