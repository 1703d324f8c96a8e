//! Limits bound what a compilation may cost. More leeway lets more programs come to an end, and none
//! that has forgotten no call for want of room comes to something else.

use vstd::prelude::*;

use crate::ast::{BindingId, SArm, SBlock, SChecked, SFn, SKind, SValue};
use crate::authored::{SForm, SItem};
use crate::callbacks::{
    filter_rule, filtered, flat_map_rule, flattened, fold_rule, folded, indexed, indexed_rule,
    map_rule, mapped, sort_rule, sorted_by, Applier,
};
use crate::error::SError;
use crate::eval::{
    all_evaluated, applied, applier, ascribed, bindings_forced, block_rule, builtin_rule,
    call_checked, call_entered, call_evaluated, call_returned, call_settled, chosen, constructed,
    entered_rule, evaluated, evaluator, fields_evaluated, forced_rule, form_rule, function_rule, last_evaluated,
    left, match_evaluated, Evaluator, NESTED_OPERATIONS,
};
use crate::files::{data_rule, read_rule, SFiles};
use crate::json::SJson;
use crate::limits::CompilerLimits;
use crate::lisp::written_module;
use crate::memo::remembered;
use crate::program::{
    block_run, compiled_cold, declared_rule, loader, module_entered, module_loaded,
    program_evaluated, program_run, programmed, required, required_rule, runner, Loader, Runner,
    SLibrary, SProgram,
};
use crate::reader::read_source;
use crate::session::compiled_source;
use crate::types::SType;
use crate::world::{new_world, swept, SWorld};

verus! {

/// Whether a world differs from another in that more may be spent and remembered in it, and in
/// nothing else.
pub open spec fn roomier(w: SWorld, x: SWorld) -> bool {
    &&& x == SWorld { budget: x.budget, limits: x.limits, ..w }
    &&& w.limits.memoized_calls <= x.limits.memoized_calls
    &&& w.budget.exprs == x.budget.exprs
    &&& w.budget.calls == x.budget.calls
    &&& w.budget.expr_limit <= x.budget.expr_limit
    &&& w.budget.call_limit <= x.budget.call_limit
    &&& w.budget.steps is Some
    &&& x.budget.steps is Some
    &&& w.budget.steps->Some_0 <= x.budget.steps->Some_0
}

/// Whether as many calls may be remembered in one world as in the other.
pub open spec fn same_room(w: SWorld, x: SWorld) -> bool {
    w.limits.memoized_calls == x.limits.memoized_calls
}

/// Whether what succeeds with less room, from `w` on, comes to the same with more, from `x` on:
/// where as many calls may be remembered, or none was forgotten for want of room. That one was
/// forgotten is not forgotten.
pub open spec fn kept<T>(
    w: SWorld,
    x: SWorld,
    a: (SWorld, Result<T, SError>),
    b: (SWorld, Result<T, SError>),
) -> bool {
    &&& w.forgot ==> a.0.forgot
    &&& roomier(w, x) && a.1 is Ok && (same_room(w, x) || !a.0.forgot) ==> {
        &&& a.1 == b.1
        &&& roomier(a.0, b.0)
        &&& same_room(w, x) ==> same_room(a.0, b.0)
    }
}

pub open spec fn evaluators_agree(f: Evaluator, g: Evaluator) -> bool {
    &&& forall|w: SWorld, e: SChecked| w.forgot ==> (#[trigger] f(w, e)).0.forgot
    &&& forall|w: SWorld, x: SWorld, e: SChecked|
        #![trigger f(w, e), g(x, e)]
        kept(w, x, f(w, e), g(x, e))
}

pub open spec fn appliers_agree(f: Applier, g: Applier) -> bool {
    &&& forall|w: SWorld, v: SValue, args: Seq<SValue>, t: Option<SType>|
        w.forgot ==> (#[trigger] f(w, v, args, t)).0.forgot
    &&& forall|w: SWorld, x: SWorld, v: SValue, args: Seq<SValue>, t: Option<SType>|
        #![trigger f(w, v, args, t), g(x, v, args, t)]
        kept(w, x, f(w, v, args, t), g(x, v, args, t))
}

proof fn all_kept(
    w: SWorld,
    x: SWorld,
    items: Seq<SChecked>,
    f: Evaluator,
    g: Evaluator,
    done: Seq<SValue>,
)
    requires
        evaluators_agree(f, g),
    ensures
        kept(w, x, all_evaluated(w, items, f, done), all_evaluated(x, items, g, done)),
    decreases items.len() - done.len(),
{
    if done.len() < items.len() {
        let e = items[done.len() as int];
        let (w1, r) = f(w, e);
        let (x1, s) = g(x, e);
        if r is Ok {
            all_kept(w1, x1, items, f, g, done.push(r->Ok_0));
        }
    }
}

proof fn fields_kept(
    w: SWorld,
    x: SWorld,
    items: Seq<(Seq<char>, SChecked)>,
    f: Evaluator,
    g: Evaluator,
    i: nat,
    done: Seq<(Seq<char>, SValue)>,
)
    requires
        evaluators_agree(f, g),
    ensures
        kept(w, x, fields_evaluated(w, items, f, i, done), fields_evaluated(x, items, g, i, done)),
    decreases items.len() - i,
{
    if i < items.len() {
        let e = items[i as int].1;
        let (w1, r) = f(w, e);
        let (x1, s) = g(x, e);
        if r is Ok {
            fields_kept(
                w1,
                x1,
                items,
                f,
                g,
                i + 1,
                crate::json::with_member(done, items[i as int].0, r->Ok_0),
            );
        }
    }
}

proof fn forced_kept(w: SWorld, x: SWorld, id: BindingId, f: Evaluator, g: Evaluator)
    requires
        evaluators_agree(f, g),
    ensures
        kept(w, x, forced_rule(w, id, f), forced_rule(x, id, g)),
{
    reveal(forced_rule);
    reveal(SWorld::forcing);
}

proof fn match_kept(
    w: SWorld,
    x: SWorld,
    value: SChecked,
    arms: Seq<SArm>,
    f: Evaluator,
    g: Evaluator,
)
    requires
        evaluators_agree(f, g),
    ensures
        kept(w, x, match_evaluated(w, value, arms, f), match_evaluated(x, value, arms, g)),
{
    reveal(match_evaluated);
}

proof fn call_kept(
    w: SWorld,
    x: SWorld,
    callee: SChecked,
    args: Seq<SChecked>,
    f: Evaluator,
    g: Evaluator,
    a: Applier,
    b: Applier,
)
    requires
        evaluators_agree(f, g),
        appliers_agree(a, b),
    ensures
        kept(w, x, call_evaluated(w, callee, args, f, a), call_evaluated(x, callee, args, g, b)),
{
    reveal(call_evaluated);
    let (w1, r) = f(w, callee);
    let (x1, s) = g(x, callee);
    if r is Ok {
        all_kept(w1, x1, args, f, g, Seq::empty());
    }
}

proof fn form_kept(
    w: SWorld,
    x: SWorld,
    e: SChecked,
    f: Evaluator,
    g: Evaluator,
    a: Applier,
    b: Applier,
)
    requires
        evaluators_agree(f, g),
        appliers_agree(a, b),
    ensures
        kept(w, x, form_rule(w, e, f, a), form_rule(x, e, g, b)),
{
    reveal(form_rule);
    match e.kind {
        SKind::BindingRef(id) => {
            forced_kept(w, x, id, f, g);
        },
        SKind::Vector(items) => {
            all_kept(w, x, items, f, g, Seq::empty());
        },
        SKind::Fields(items) => {
            fields_kept(w, x, items, f, g, 0, Seq::empty());
        },
        SKind::If(_, _, _) => {
            reveal(chosen);
        },
        SKind::Construct(_, _, _) => {
            reveal(constructed);
        },
        SKind::Match(value, arms) => {
            match_kept(w, x, *value, arms, f, g);
        },
        SKind::Call(callee, args) => {
            call_kept(w, x, *callee, args, f, g, a, b);
        },
        SKind::Ascribe(_, _) => {
            reveal(ascribed);
        },
        _ => {},
    }
}

proof fn entered_kept(
    w: SWorld,
    x: SWorld,
    e: SChecked,
    f: Evaluator,
    g: Evaluator,
    a: Applier,
    b: Applier,
)
    requires
        evaluators_agree(f, g),
        appliers_agree(a, b),
    ensures
        kept(w, x, entered_rule(w, e, f, a), entered_rule(x, e, g, b)),
{
    reveal(entered_rule);
    let w1 = w.with_budget(w.budget.expr_entered());
    let x1 = x.with_budget(x.budget.expr_entered());
    if w1.budget.stepped() is Ok {
        form_kept(
            w1.with_budget(w1.budget.stepped()->Ok_0),
            x1.with_budget(x1.budget.stepped()->Ok_0),
            e,
            f,
            g,
            a,
            b,
        );
    }
}

proof fn bindings_kept(w: SWorld, x: SWorld, block: SBlock, f: Evaluator, g: Evaluator, i: nat)
    requires
        evaluators_agree(f, g),
    ensures
        kept(w, x, bindings_forced(w, block, f, i), bindings_forced(x, block, g, i)),
    decreases block.bindings.len() - i,
{
    if i < block.bindings.len() {
        let id = block.bindings[i as int].id;
        forced_kept(w, x, id, f, g);
        let (w1, r) = forced_rule(w, id, f);
        let (x1, s) = forced_rule(x, id, g);
        if r is Ok {
            bindings_kept(w1, x1, block, f, g, i + 1);
        }
    }
}

proof fn last_kept(
    w: SWorld,
    x: SWorld,
    items: Seq<SChecked>,
    f: Evaluator,
    g: Evaluator,
    i: nat,
    last: SValue,
)
    requires
        evaluators_agree(f, g),
    ensures
        kept(w, x, last_evaluated(w, items, f, i, last), last_evaluated(x, items, g, i, last)),
    decreases items.len() - i,
{
    if i < items.len() {
        let (w1, r) = f(w, items[i as int]);
        let (x1, s) = g(x, items[i as int]);
        if r is Ok {
            last_kept(w1, x1, items, f, g, i + 1, r->Ok_0);
        }
    }
}

proof fn block_kept(w: SWorld, x: SWorld, block: SBlock, f: Evaluator, g: Evaluator)
    requires
        evaluators_agree(f, g),
    ensures
        kept(w, x, block_rule(w, block, f), block_rule(x, block, g)),
{
    reveal(block_rule);
    let (env, declared) = crate::eval::slots_declared(w.env, block, 0);
    if declared is Ok {
        let w1 = w.with_env(env);
        let x1 = x.with_env(env);
        bindings_kept(w1, x1, block, f, g, 0);
        let (w2, r) = bindings_forced(w1, block, f, 0);
        let (x2, s) = bindings_forced(x1, block, g, 0);
        if r is Ok {
            last_kept(w2, x2, block.expressions, f, g, 0, SValue::Unit);
        }
    }
}

proof fn function_kept(
    w: SWorld,
    x: SWorld,
    fun: SFn,
    args: Seq<SValue>,
    signature: Option<SType>,
    f: Evaluator,
    g: Evaluator,
)
    requires
        evaluators_agree(f, g),
    ensures
        kept(
            w,
            x,
            function_rule(w, fun, args, signature, f),
            function_rule(x, fun, args, signature, g),
        ),
{
    reveal(function_rule);
    reveal(call_checked);
    reveal(call_entered);
    reveal(call_returned);
    reveal(call_settled);
    reveal(remembered);
    reveal(swept);
    let (w1, checked) = call_checked(w, fun, args, signature);
    let (x1, again) = call_checked(x, fun, args, signature);
    assert(roomier(w, x) ==> roomier(w1, x1) && again == checked);
    if checked is Ok {
        let subst = checked->Ok_0.1;
        block_kept(
            call_entered(w1, fun, args, subst),
            call_entered(x1, fun, args, subst),
            *fun.checked.body,
            f,
            g,
        );
    }
}

proof fn mapped_kept(
    w: SWorld,
    x: SWorld,
    f: SValue,
    items: Seq<SValue>,
    a: Applier,
    b: Applier,
    done: Seq<SValue>,
)
    requires
        appliers_agree(a, b),
    ensures
        kept(w, x, mapped(w, f, items, a, done), mapped(x, f, items, b, done)),
    decreases items.len() - done.len(),
{
    if done.len() < items.len() {
        let args = seq![items[done.len() as int]];
        let (w1, r) = a(w, f, args, None);
        let (x1, s) = b(x, f, args, None);
        if r is Ok {
            mapped_kept(w1, x1, f, items, a, b, done.push(r->Ok_0));
        }
    }
}

proof fn indexed_kept(
    w: SWorld,
    x: SWorld,
    f: SValue,
    items: Seq<SValue>,
    a: Applier,
    b: Applier,
    done: Seq<SValue>,
)
    requires
        appliers_agree(a, b),
    ensures
        kept(w, x, indexed(w, f, items, a, done), indexed(x, f, items, b, done)),
    decreases items.len() - done.len(),
{
    if done.len() < items.len() {
        let args = seq![SValue::Int(done.len() as i64), items[done.len() as int]];
        let (w1, r) = a(w, f, args, None);
        let (x1, s) = b(x, f, args, None);
        if r is Ok {
            indexed_kept(w1, x1, f, items, a, b, done.push(r->Ok_0));
        }
    }
}

proof fn filtered_kept(
    w: SWorld,
    x: SWorld,
    f: SValue,
    items: Seq<SValue>,
    a: Applier,
    b: Applier,
    i: nat,
    done: Seq<SValue>,
)
    requires
        appliers_agree(a, b),
    ensures
        kept(w, x, filtered(w, f, items, a, i, done), filtered(x, f, items, b, i, done)),
    decreases items.len() - i,
{
    if i < items.len() {
        let args = seq![items[i as int]];
        let (w1, r) = a(w, f, args, None);
        let (x1, s) = b(x, f, args, None);
        if r is Ok {
            let next = if crate::values::is_true(r->Ok_0) {
                done.push(items[i as int])
            } else {
                done
            };
            filtered_kept(w1, x1, f, items, a, b, i + 1, next);
        }
    }
}

proof fn flattened_kept(
    w: SWorld,
    x: SWorld,
    f: SValue,
    items: Seq<SValue>,
    a: Applier,
    b: Applier,
    i: nat,
    done: Seq<SValue>,
)
    requires
        appliers_agree(a, b),
    ensures
        kept(w, x, flattened(w, f, items, a, i, done), flattened(x, f, items, b, i, done)),
    decreases items.len() - i,
{
    if i < items.len() {
        let args = seq![items[i as int]];
        let (w1, r) = a(w, f, args, None);
        let (x1, s) = b(x, f, args, None);
        if r is Ok {
            match crate::callbacks::items_of("flat-map"@, r->Ok_0) {
                Ok(more) => {
                    flattened_kept(w1, x1, f, items, a, b, i + 1, done + more);
                },
                Err(_) => {},
            }
        }
    }
}

proof fn folded_kept(
    w: SWorld,
    x: SWorld,
    f: SValue,
    acc: SValue,
    items: Seq<SValue>,
    a: Applier,
    b: Applier,
    i: nat,
)
    requires
        appliers_agree(a, b),
    ensures
        kept(w, x, folded(w, f, acc, items, a, i), folded(x, f, acc, items, b, i)),
    decreases items.len() - i,
{
    if i < items.len() {
        let args = seq![acc, items[i as int]];
        let (w1, r) = a(w, f, args, None);
        let (x1, s) = b(x, f, args, None);
        if r is Ok {
            folded_kept(w1, x1, f, r->Ok_0, items, a, b, i + 1);
        }
    }
}

proof fn sorted_kept(
    w: SWorld,
    x: SWorld,
    f: SValue,
    items: Seq<SValue>,
    a: Applier,
    b: Applier,
    i: nat,
    done: Seq<(Seq<char>, SValue)>,
)
    requires
        appliers_agree(a, b),
    ensures
        kept(w, x, sorted_by(w, f, items, a, i, done), sorted_by(x, f, items, b, i, done)),
    decreases items.len() - i,
{
    if i < items.len() {
        let args = seq![items[i as int]];
        let (w1, r) = a(w, f, args, None);
        let (x1, s) = b(x, f, args, None);
        if r is Ok {
            match crate::ast::string_of(r->Ok_0) {
                Some(key) => {
                    sorted_kept(
                        w1,
                        x1,
                        f,
                        items,
                        a,
                        b,
                        i + 1,
                        crate::callbacks::with_keyed(done, key, items[i as int]),
                    );
                },
                None => {},
            }
        }
    }
}

proof fn builtin_kept(
    files: SFiles,
    w: SWorld,
    x: SWorld,
    name: Seq<char>,
    args: Seq<SValue>,
    a: Applier,
    b: Applier,
)
    requires
        appliers_agree(a, b),
    ensures
        kept(w, x, builtin_rule(files, w, name, args, a), builtin_rule(files, x, name, args, b)),
{
    reveal(builtin_rule);
    if name == "map"@ {
        reveal(map_rule);
        match crate::callbacks::items_of("map"@, args[1]) {
            Ok(items) => {
                mapped_kept(w, x, args[0], items, a, b, Seq::empty());
            },
            Err(_) => {},
        }
    } else if name == "indexed-map"@ {
        reveal(indexed_rule);
        match crate::callbacks::items_of("indexed-map"@, args[1]) {
            Ok(items) => {
                indexed_kept(w, x, args[0], items, a, b, Seq::empty());
            },
            Err(_) => {},
        }
    } else if name == "filter"@ {
        reveal(filter_rule);
        match crate::callbacks::items_of("filter"@, args[1]) {
            Ok(items) => {
                filtered_kept(w, x, args[0], items, a, b, 0, Seq::empty());
            },
            Err(_) => {},
        }
    } else if name == "flat-map"@ {
        reveal(flat_map_rule);
        match crate::callbacks::items_of("flat-map"@, args[1]) {
            Ok(items) => {
                flattened_kept(w, x, args[0], items, a, b, 0, Seq::empty());
            },
            Err(_) => {},
        }
    } else if name == "fold"@ {
        reveal(fold_rule);
        match crate::callbacks::items_of("fold"@, args[2]) {
            Ok(items) => {
                folded_kept(w, x, args[0], args[1], items, a, b, 0);
            },
            Err(_) => {},
        }
    } else if name == "sort-by"@ {
        reveal(sort_rule);
        match crate::callbacks::items_of("sort-by"@, args[1]) {
            Ok(items) => {
                sorted_kept(w, x, args[0], items, a, b, 0, Seq::empty());
            },
            Err(_) => {},
        }
    } else if name == "read"@ {
        reveal(read_rule);
    } else if name == "read-json"@ {
        reveal(data_rule);
    }
}

/// An expression that stands for a value where expressions may nest `depth` deep and calls `calls`
/// deep stands for the same value where they may nest deeper and more may be spent.
pub proof fn evaluation_is_kept(
    files: SFiles,
    w: SWorld,
    x: SWorld,
    e: SChecked,
    depth: nat,
    calls: nat,
    more_depth: nat,
    more_calls: nat,
)
    requires
        depth <= more_depth,
        calls <= more_calls,
    ensures
        kept(
            w,
            x,
            evaluated(files, w, e, depth, calls),
            evaluated(files, x, e, more_depth, more_calls),
        ),
    decreases depth, 0nat, 1nat,
{
    if depth > 0 {
        let d = (depth - 1) as nat;
        let m = (more_depth - 1) as nat;
        evaluators_are_kept(files, d, calls, m, more_calls);
        appliers_are_kept(files, d, calls, m, more_calls, NESTED_OPERATIONS as nat);
        entered_kept(
            w,
            x,
            e,
            evaluator(files, d, calls),
            evaluator(files, m, more_calls),
            applier(files, d, calls, NESTED_OPERATIONS as nat),
            applier(files, m, more_calls, NESTED_OPERATIONS as nat),
        );
    }
}

proof fn evaluators_are_kept(
    files: SFiles,
    depth: nat,
    calls: nat,
    more_depth: nat,
    more_calls: nat,
)
    requires
        depth <= more_depth,
        calls <= more_calls,
    ensures
        evaluators_agree(evaluator(files, depth, calls), evaluator(files, more_depth, more_calls)),
    decreases depth, 0nat, 2nat,
{
    let f = evaluator(files, depth, calls);
    let g = evaluator(files, more_depth, more_calls);
    assert forall|w: SWorld, x: SWorld, e: SChecked|
        #![trigger f(w, e), g(x, e)]
        kept(w, x, f(w, e), g(x, e)) by {
        evaluation_is_kept(files, w, x, e, depth, calls, more_depth, more_calls);
    }
    assert forall|w: SWorld, e: SChecked| w.forgot implies (#[trigger] f(w, e)).0.forgot by {
        assert(kept(w, w, f(w, e), g(w, e)));
    }
}

proof fn application_is_kept(
    files: SFiles,
    w: SWorld,
    x: SWorld,
    f: SValue,
    args: Seq<SValue>,
    signature: Option<SType>,
    depth: nat,
    calls: nat,
    more_depth: nat,
    more_calls: nat,
    hops: nat,
)
    requires
        depth <= more_depth,
        calls <= more_calls,
    ensures
        kept(
            w,
            x,
            applied(files, w, f, args, signature, depth, calls, hops),
            applied(files, x, f, args, signature, more_depth, more_calls, hops),
        ),
    decreases depth, hops + 1, 1nat,
{
    match f {
        SValue::Fn(fun) => {
            if calls > 0 {
                let c = (calls - 1) as nat;
                let m = (more_calls - 1) as nat;
                evaluators_are_kept(files, depth, c, more_depth, m);
                function_kept(
                    w.with_budget(w.budget.call_entered()),
                    x.with_budget(x.budget.call_entered()),
                    fun,
                    args,
                    signature,
                    evaluator(files, depth, c),
                    evaluator(files, more_depth, m),
                );
            }
        },
        SValue::BuiltinFn(name) => {
            if hops > 0 {
                let h = (hops - 1) as nat;
                appliers_are_kept(files, depth, calls, more_depth, more_calls, h);
                builtin_kept(
                    files,
                    w,
                    x,
                    name,
                    args,
                    applier(files, depth, calls, h),
                    applier(files, more_depth, more_calls, h),
                );
            }
        },
        _ => {},
    }
}

proof fn appliers_are_kept(
    files: SFiles,
    depth: nat,
    calls: nat,
    more_depth: nat,
    more_calls: nat,
    hops: nat,
)
    requires
        depth <= more_depth,
        calls <= more_calls,
    ensures
        appliers_agree(
            applier(files, depth, calls, hops),
            applier(files, more_depth, more_calls, hops),
        ),
    decreases depth, hops + 1, 2nat,
{
    let f = applier(files, depth, calls, hops);
    let g = applier(files, more_depth, more_calls, hops);
    assert forall|w: SWorld, x: SWorld, v: SValue, args: Seq<SValue>, t: Option<SType>|
        #![trigger f(w, v, args, t), g(x, v, args, t)]
        kept(w, x, f(w, v, args, t), g(x, v, args, t)) by {
        application_is_kept(
            files,
            w,
            x,
            v,
            args,
            t,
            depth,
            calls,
            more_depth,
            more_calls,
            hops,
        );
    }
    assert forall|w: SWorld, v: SValue, args: Seq<SValue>, t: Option<SType>|
        w.forgot implies (#[trigger] f(w, v, args, t)).0.forgot by {
        assert(kept(w, w, f(w, v, args, t), g(w, v, args, t)));
    }
}

pub open spec fn loaders_agree(f: Loader, g: Loader) -> bool {
    forall|w: SWorld, x: SWorld, name: Seq<char>|
        #![trigger f(w, name), g(x, name)]
        kept(w, x, f(w, name), g(x, name))
}

pub open spec fn runners_agree(f: Runner, g: Runner) -> bool {
    forall|w: SWorld, x: SWorld, p: SProgram|
        #![trigger f(w, p), g(x, p)]
        kept(w, x, f(w, p), g(x, p))
}

proof fn declared_kept(w: SWorld, x: SWorld, forms: Seq<SForm>, f: Loader, i: nat)
    requires
        loaders_agree(f, f),
    ensures
        kept(w, x, declared_rule(w, forms, f, i), declared_rule(x, forms, f, i)),
    decreases forms.len() - i,
{
    if i < forms.len() {
        match forms[i as int] {
            SForm::Require(name, exposure) => {
                let (w1, r) = f(w, name);
                let (x1, s) = f(x, name);
                if exposure is Qualified && r is Ok {
                    declared_kept(w1, x1, forms, f, i + 1);
                }
            },
            SForm::Type(d) => {
                let (w1, r) = crate::program::type_declared(w, d);
                let (x1, s) = crate::program::type_declared(x, d);
                if r is Ok {
                    declared_kept(w1, x1, forms, f, i + 1);
                }
            },
            SForm::Invalid(_) => {},
            SForm::Block(_) => {
                declared_kept(w, x, forms, f, i + 1);
            },
        }
    }
}

proof fn run_kept(files: SFiles, w: SWorld, x: SWorld, items: Seq<SItem>)
    ensures
        kept(w, x, block_run(files, w, items), block_run(files, x, items)),
{
    reveal(block_run);
    reveal(swept);
    let (table, made) = crate::compile::block_made(w.env, w.table, Seq::empty(), items, None);
    let w1 = SWorld { table, ..w };
    let x1 = SWorld { table, ..x };
    if made is Ok {
        let d = left(w1.budget.exprs, w1.budget.expr_limit);
        let c = left(w1.budget.calls, w1.budget.call_limit);
        let m = left(x1.budget.exprs, x1.budget.expr_limit);
        let n = left(x1.budget.calls, x1.budget.call_limit);
        if roomier(w, x) {
            evaluators_are_kept(files, d, c, m, n);
            block_kept(w1, x1, made->Ok_0, evaluator(files, d, c), evaluator(files, m, n));
        } else {
            evaluators_are_kept(files, d, c, d, c);
            block_kept(w1, w1, made->Ok_0, evaluator(files, d, c), evaluator(files, d, c));
        }
    }
}

proof fn load_kept(w: SWorld, x: SWorld, name: Seq<char>, p: SProgram, f: Runner)
    requires
        runners_agree(f, f),
    ensures
        kept(w, x, module_loaded(w, name, p, f), module_loaded(x, name, p, f)),
{
    reveal(module_loaded);
    reveal(module_entered);
    let a = module_entered(w, name);
    let b = module_entered(x, name);
    assert(roomier(w, x) ==> roomier(a, b));
    assert(kept(a, b, f(a, p), f(b, p)));
}

proof fn requirement_kept(lib: SLibrary, w: SWorld, x: SWorld, name: Seq<char>, nesting: nat)
    ensures
        kept(w, x, required(lib, w, name, nesting), required(lib, x, name, nesting)),
    decreases nesting, 0nat,
{
    if nesting > 0 {
        let f = runner(lib, (nesting - 1) as nat);
        assert forall|w: SWorld, x: SWorld, p: SProgram|
            #![trigger f(w, p), f(x, p)]
            kept(w, x, f(w, p), f(x, p)) by {
            program_is_kept(lib, w, x, p, (nesting - 1) as nat);
        }
        reveal(required_rule);
        match w.modules.begun(name) {
            Ok(modules) => {
                match crate::env::keyed(lib.modules, name, 0) {
                    Some(crate::program::SModuleAnswer::Found(p)) => {
                        load_kept(
                            SWorld { modules, ..w },
                            SWorld { modules, ..x },
                            name,
                            p,
                            f,
                        );
                    },
                    _ => {},
                }
            },
            Err(_) => {},
        }
    }
}

/// A program that comes to a value comes to the same value where more may be spent.
pub proof fn program_is_kept(lib: SLibrary, w: SWorld, x: SWorld, p: SProgram, nesting: nat)
    ensures
        kept(w, x, program_run(lib, w, p, nesting), program_run(lib, x, p, nesting)),
    decreases nesting, 2nat,
{
    let f = loader(lib, nesting);
    assert forall|w: SWorld, x: SWorld, name: Seq<char>|
        #![trigger f(w, name), f(x, name)]
        kept(w, x, f(w, name), f(x, name)) by {
        requirement_kept(lib, w, x, name, nesting);
    }
    declared_kept(w, x, p.declarations, f, 0);
    let (w1, r) = declared_rule(w, p.declarations, f, 0);
    let (x1, s) = declared_rule(x, p.declarations, f, 0);
    if r is Ok {
        run_kept(lib.files, w1, x1, p.items);
    }
}

/// Limits bound cost and failure; they do not alter successful values: a program that compiles
/// under some limits compiles to the same artifact under greater ones. Where these also leave room
/// to remember more calls, that is said of programs that forgot none under the lesser limits.
pub proof fn limits_do_not_alter_artifacts(
    lib: SLibrary,
    p: SProgram,
    inputs: SJson,
    limits: CompilerLimits,
    greater: CompilerLimits,
)
    requires
        limits.evaluation_steps <= greater.evaluation_steps,
        limits.call_depth <= greater.call_depth,
        limits.expression_depth <= greater.expression_depth,
        limits.memoized_calls <= greater.memoized_calls,
        limits.memoized_calls == greater.memoized_calls || !compiled_cold(
            lib,
            p,
            inputs,
            limits,
        ).0.forgot,
        compiled_cold(lib, p, inputs, limits).1 is Ok,
    ensures
        compiled_cold(lib, p, inputs, greater).1 == compiled_cold(lib, p, inputs, limits).1,
{
    reveal(compiled_cold);
    reveal(new_world);
    reveal(program_evaluated);
    let w = new_world(limits);
    let x = new_world(greater);
    let w = w.with_budget(w.budget.installed(limits));
    let x = x.with_budget(x.budget.installed(greater));
    let (env, table) = crate::frames::defined(
        w.env,
        w.table,
        "inputs"@,
        SValue::HostInputs(inputs),
    );
    program_is_kept(
        lib,
        SWorld { env, table, ..w },
        SWorld { env, table, ..x },
        p,
        crate::program::nesting_limit(lib),
    );
}

/// Whether a source forgets a call for want of room when it is compiled.
pub open spec fn forgetful(
    lib: SLibrary,
    source: Seq<char>,
    inputs: SJson,
    limits: CompilerLimits,
) -> bool {
    match read_source(source) {
        Err(_) => false,
        Ok(e) => compiled_cold(lib, programmed(written_module(e)), inputs, limits).0.forgot,
    }
}

/// Whatever the limits are, a source that compiles under one choice of them and under another
/// compiles to the same artifact. Where the limits differ in how many calls are remembered, that is
/// said of sources that forget none under either.
pub proof fn successful_artifacts_agree(
    lib: SLibrary,
    source: Seq<char>,
    inputs: SJson,
    limits: CompilerLimits,
    others: CompilerLimits,
)
    requires
        limits.memoized_calls == others.memoized_calls || (!forgetful(lib, source, inputs, limits)
            && !forgetful(lib, source, inputs, others)),
        compiled_source(lib, source, inputs, limits) is Ok,
        compiled_source(lib, source, inputs, others) is Ok,
    ensures
        compiled_source(lib, source, inputs, limits) == compiled_source(
            lib,
            source,
            inputs,
            others,
        ),
{
    let greater = CompilerLimits {
        evaluation_steps: if limits.evaluation_steps < others.evaluation_steps {
            others.evaluation_steps
        } else {
            limits.evaluation_steps
        },
        call_depth: if limits.call_depth < others.call_depth {
            others.call_depth
        } else {
            limits.call_depth
        },
        expression_depth: if limits.expression_depth < others.expression_depth {
            others.expression_depth
        } else {
            limits.expression_depth
        },
        memoized_calls: if limits.memoized_calls < others.memoized_calls {
            others.memoized_calls
        } else {
            limits.memoized_calls
        },
    };
    let p = programmed(written_module(read_source(source)->Ok_0));
    limits_do_not_alter_artifacts(lib, p, inputs, limits, greater);
    limits_do_not_alter_artifacts(lib, p, inputs, others, greater);
}

} // verus!
