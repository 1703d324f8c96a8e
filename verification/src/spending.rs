//! What an evaluation costs: it only ever spends the steps that it was granted, and it leaves as
//! many calls and expressions as it entered.

use vstd::prelude::*;

use crate::ast::{BindingId, SArm, SBlock, SChecked, SFn, SKind, SValue};
use crate::callbacks::{
    filter_rule, filtered, flat_map_rule, flattened, fold_rule, folded, indexed, indexed_rule,
    items_of, map_rule, mapped, sort_rule, sorted_by, with_keyed, Applier,
};
use crate::eval::{
    all_evaluated, applied, applier, ascribed, at_level, bindings_forced, block_rule, builtin_rule,
    call_checked, call_entered, call_evaluated, call_settled, chosen, constructed, entered_rule,
    evaluated, evaluator, fields_evaluated, forced_rule, form_rule, function_rule, last_evaluated,
    match_evaluated, same_level, slots_declared, Evaluator, NESTED_OPERATIONS,
};
use crate::files::{data_rule, read_rule, SFiles};
use crate::fuel::Budget;
use crate::json::with_member;
use crate::types::SType;
use crate::values::is_true;
use crate::world::{swept, SWorld};

verus! {

/// Whether a budget is what is left of another: some of the steps, and all of the nesting.
pub open spec fn left_of(a: Budget, b: Budget) -> bool {
    &&& same_level(a, b)
    &&& a.steps is Some
    &&& b.steps is Some
    &&& b.steps->Some_0 <= a.steps->Some_0
}

/// Whether a world may spend steps, with so much room for nesting.
pub open spec fn funded(w: SWorld, depth: nat, calls: nat) -> bool {
    w.budget.steps is Some && at_level(w.budget, depth, calls)
}

pub open spec fn evaluator_spends(ev: Evaluator, depth: nat, calls: nat) -> bool {
    forall|w: SWorld, e: SChecked|
        funded(w, depth, calls) ==> left_of(w.budget, (#[trigger] ev(w, e)).0.budget)
}

pub open spec fn applier_spends(ap: Applier, depth: nat, calls: nat) -> bool {
    forall|w: SWorld, v: SValue, args: Seq<SValue>, t: Option<SType>|
        funded(w, depth, calls) ==> left_of(w.budget, (#[trigger] ap(w, v, args, t)).0.budget)
}

proof fn all_spend(
    w: SWorld,
    items: Seq<SChecked>,
    ev: Evaluator,
    done: Seq<SValue>,
    d: nat,
    c: nat,
)
    requires
        funded(w, d, c),
        evaluator_spends(ev, d, c),
    ensures
        left_of(w.budget, all_evaluated(w, items, ev, done).0.budget),
    decreases items.len() - done.len(),
{
    if done.len() < items.len() {
        let (w1, r) = ev(w, items[done.len() as int]);
        if r is Ok {
            all_spend(w1, items, ev, done.push(r->Ok_0), d, c);
        }
    }
}

proof fn fields_spend(
    w: SWorld,
    items: Seq<(Seq<char>, SChecked)>,
    ev: Evaluator,
    i: nat,
    done: Seq<(Seq<char>, SValue)>,
    d: nat,
    c: nat,
)
    requires
        funded(w, d, c),
        evaluator_spends(ev, d, c),
    ensures
        left_of(w.budget, fields_evaluated(w, items, ev, i, done).0.budget),
    decreases items.len() - i,
{
    if i < items.len() {
        let (w1, r) = ev(w, items[i as int].1);
        if r is Ok {
            let next = with_member(done, items[i as int].0, r->Ok_0);
            fields_spend(w1, items, ev, i + 1, next, d, c);
        }
    }
}

proof fn forcing_spends(w: SWorld, id: BindingId, ev: Evaluator, d: nat, c: nat)
    requires
        funded(w, d, c),
        evaluator_spends(ev, d, c),
    ensures
        left_of(w.budget, forced_rule(w, id, ev).0.budget),
{
    reveal(forced_rule);
    reveal(SWorld::forcing);
}

proof fn match_spends(
    w: SWorld,
    value: SChecked,
    arms: Seq<SArm>,
    ev: Evaluator,
    d: nat,
    c: nat,
)
    requires
        funded(w, d, c),
        evaluator_spends(ev, d, c),
    ensures
        left_of(w.budget, match_evaluated(w, value, arms, ev).0.budget),
{
    reveal(match_evaluated);
}

proof fn call_spends(
    w: SWorld,
    callee: SChecked,
    args: Seq<SChecked>,
    ev: Evaluator,
    ap: Applier,
    d: nat,
    c: nat,
)
    requires
        funded(w, d, c),
        evaluator_spends(ev, d, c),
        applier_spends(ap, d, c),
    ensures
        left_of(w.budget, call_evaluated(w, callee, args, ev, ap).0.budget),
{
    reveal(call_evaluated);
    let (w1, r) = ev(w, callee);
    if r is Ok {
        all_spend(w1, args, ev, Seq::empty(), d, c);
    }
}

proof fn form_spends(w: SWorld, e: SChecked, ev: Evaluator, ap: Applier, d: nat, c: nat)
    requires
        funded(w, d, c),
        evaluator_spends(ev, d, c),
        applier_spends(ap, d, c),
    ensures
        left_of(w.budget, form_rule(w, e, ev, ap).0.budget),
{
    reveal(form_rule);
    match e.kind {
        SKind::BindingRef(id) => {
            forcing_spends(w, id, ev, d, c);
        },
        SKind::Vector(items) => {
            all_spend(w, items, ev, Seq::empty(), d, c);
        },
        SKind::Fields(items) => {
            fields_spend(w, items, ev, 0, Seq::empty(), d, c);
        },
        SKind::If(_, _, _) => {
            reveal(chosen);
        },
        SKind::Construct(_, _, _) => {
            reveal(constructed);
        },
        SKind::Match(value, arms) => {
            match_spends(w, *value, arms, ev, d, c);
        },
        SKind::Call(callee, args) => {
            call_spends(w, *callee, args, ev, ap, d, c);
        },
        SKind::Ascribe(_, _) => {
            reveal(ascribed);
        },
        _ => {},
    }
}

proof fn bindings_spend(w: SWorld, block: SBlock, ev: Evaluator, i: nat, d: nat, c: nat)
    requires
        funded(w, d, c),
        evaluator_spends(ev, d, c),
    ensures
        left_of(w.budget, bindings_forced(w, block, ev, i).0.budget),
    decreases block.bindings.len() - i,
{
    if i < block.bindings.len() {
        let id = block.bindings[i as int].id;
        forcing_spends(w, id, ev, d, c);
        let (w1, r) = forced_rule(w, id, ev);
        if r is Ok {
            bindings_spend(w1, block, ev, i + 1, d, c);
        }
    }
}

proof fn last_spends(
    w: SWorld,
    items: Seq<SChecked>,
    ev: Evaluator,
    i: nat,
    last: SValue,
    d: nat,
    c: nat,
)
    requires
        funded(w, d, c),
        evaluator_spends(ev, d, c),
    ensures
        left_of(w.budget, last_evaluated(w, items, ev, i, last).0.budget),
    decreases items.len() - i,
{
    if i < items.len() {
        let (w1, r) = ev(w, items[i as int]);
        if r is Ok {
            last_spends(w1, items, ev, i + 1, r->Ok_0, d, c);
        }
    }
}

proof fn block_spends(w: SWorld, block: SBlock, ev: Evaluator, d: nat, c: nat)
    requires
        funded(w, d, c),
        evaluator_spends(ev, d, c),
    ensures
        left_of(w.budget, block_rule(w, block, ev).0.budget),
{
    reveal(block_rule);
    let w1 = w.with_env(slots_declared(w.env, block, 0).0);
    bindings_spend(w1, block, ev, 0, d, c);
    let (w2, r) = bindings_forced(w1, block, ev, 0);
    last_spends(w2, block.expressions, ev, 0, SValue::Unit, d, c);
}

proof fn function_spends(
    w: SWorld,
    fun: SFn,
    args: Seq<SValue>,
    signature: Option<SType>,
    ev: Evaluator,
    d: nat,
    c: nat,
)
    requires
        funded(w, d, c),
        evaluator_spends(ev, d, c),
    ensures
        left_of(w.budget, function_rule(w, fun, args, signature, ev).0.budget),
{
    reveal(function_rule);
    reveal(call_checked);
    reveal(call_entered);
    reveal(call_settled);
    reveal(swept);
    let (w1, checked) = call_checked(w, fun, args, signature);
    if checked is Ok {
        let w2 = call_entered(w1, fun, args, checked->Ok_0.1);
        block_spends(w2, *fun.checked.body, ev, d, c);
    }
}

proof fn mapping_spends(
    w: SWorld,
    f: SValue,
    items: Seq<SValue>,
    ap: Applier,
    done: Seq<SValue>,
    d: nat,
    c: nat,
)
    requires
        funded(w, d, c),
        applier_spends(ap, d, c),
    ensures
        left_of(w.budget, mapped(w, f, items, ap, done).0.budget),
        left_of(w.budget, indexed(w, f, items, ap, done).0.budget),
    decreases items.len() - done.len(),
{
    if done.len() < items.len() {
        let (w1, r) = ap(w, f, seq![items[done.len() as int]], None);
        if r is Ok {
            mapping_spends(w1, f, items, ap, done.push(r->Ok_0), d, c);
        }
        let (w2, s) = ap(
            w,
            f,
            seq![SValue::Int(done.len() as i64), items[done.len() as int]],
            None,
        );
        if s is Ok {
            mapping_spends(w2, f, items, ap, done.push(s->Ok_0), d, c);
        }
    }
}

proof fn filtering_spends(
    w: SWorld,
    f: SValue,
    items: Seq<SValue>,
    ap: Applier,
    i: nat,
    done: Seq<SValue>,
    d: nat,
    c: nat,
)
    requires
        funded(w, d, c),
        applier_spends(ap, d, c),
    ensures
        left_of(w.budget, filtered(w, f, items, ap, i, done).0.budget),
        left_of(w.budget, flattened(w, f, items, ap, i, done).0.budget),
    decreases items.len() - i,
{
    if i < items.len() {
        let (w1, r) = ap(w, f, seq![items[i as int]], None);
        if r is Ok {
            let next = if is_true(r->Ok_0) {
                done.push(items[i as int])
            } else {
                done
            };
            filtering_spends(w1, f, items, ap, i + 1, next, d, c);
            match items_of("flat-map"@, r->Ok_0) {
                Ok(more) => {
                    filtering_spends(w1, f, items, ap, i + 1, done + more, d, c);
                },
                Err(_) => {},
            }
        }
    }
}

proof fn folding_spends(
    w: SWorld,
    f: SValue,
    acc: SValue,
    items: Seq<SValue>,
    ap: Applier,
    i: nat,
    d: nat,
    c: nat,
)
    requires
        funded(w, d, c),
        applier_spends(ap, d, c),
    ensures
        left_of(w.budget, folded(w, f, acc, items, ap, i).0.budget),
    decreases items.len() - i,
{
    if i < items.len() {
        let (w1, r) = ap(w, f, seq![acc, items[i as int]], None);
        if r is Ok {
            folding_spends(w1, f, r->Ok_0, items, ap, i + 1, d, c);
        }
    }
}

proof fn sorting_spends(
    w: SWorld,
    f: SValue,
    items: Seq<SValue>,
    ap: Applier,
    i: nat,
    done: Seq<(Seq<char>, SValue)>,
    d: nat,
    c: nat,
)
    requires
        funded(w, d, c),
        applier_spends(ap, d, c),
    ensures
        left_of(w.budget, sorted_by(w, f, items, ap, i, done).0.budget),
    decreases items.len() - i,
{
    if i < items.len() {
        let (w1, r) = ap(w, f, seq![items[i as int]], None);
        if r is Ok {
            match crate::ast::string_of(r->Ok_0) {
                Some(key) => {
                    let next = with_keyed(done, key, items[i as int]);
                    sorting_spends(w1, f, items, ap, i + 1, next, d, c);
                },
                None => {},
            }
        }
    }
}

proof fn builtin_spends(
    files: SFiles,
    w: SWorld,
    name: Seq<char>,
    args: Seq<SValue>,
    ap: Applier,
    d: nat,
    c: nat,
)
    requires
        funded(w, d, c),
        applier_spends(ap, d, c),
    ensures
        left_of(w.budget, builtin_rule(files, w, name, args, ap).0.budget),
{
    reveal(builtin_rule);
    reveal(map_rule);
    reveal(indexed_rule);
    reveal(filter_rule);
    reveal(flat_map_rule);
    reveal(fold_rule);
    reveal(sort_rule);
    reveal(read_rule);
    reveal(data_rule);
    if name == "map"@ {
        match items_of("map"@, args[1]) {
            Ok(items) => {
                mapping_spends(w, args[0], items, ap, Seq::empty(), d, c);
            },
            Err(_) => {},
        }
    } else if name == "indexed-map"@ {
        match items_of("indexed-map"@, args[1]) {
            Ok(items) => {
                mapping_spends(w, args[0], items, ap, Seq::empty(), d, c);
            },
            Err(_) => {},
        }
    } else if name == "filter"@ {
        match items_of("filter"@, args[1]) {
            Ok(items) => {
                filtering_spends(w, args[0], items, ap, 0, Seq::empty(), d, c);
            },
            Err(_) => {},
        }
    } else if name == "flat-map"@ {
        match items_of("flat-map"@, args[1]) {
            Ok(items) => {
                filtering_spends(w, args[0], items, ap, 0, Seq::empty(), d, c);
            },
            Err(_) => {},
        }
    } else if name == "fold"@ {
        match items_of("fold"@, args[2]) {
            Ok(items) => {
                folding_spends(w, args[0], args[1], items, ap, 0, d, c);
            },
            Err(_) => {},
        }
    } else if name == "sort-by"@ {
        match items_of("sort-by"@, args[1]) {
            Ok(items) => {
                sorting_spends(w, args[0], items, ap, 0, Seq::empty(), d, c);
            },
            Err(_) => {},
        }
    }
}

/// Evaluating an expression spends steps and never gains any, and leaves the nesting of calls and
/// expressions as it was, whether it succeeds or fails. Where it succeeds, a step was spent.
pub proof fn evaluation_only_spends(
    files: SFiles,
    w: SWorld,
    e: SChecked,
    depth: nat,
    calls: nat,
)
    requires
        funded(w, depth, calls),
    ensures
        left_of(w.budget, evaluated(files, w, e, depth, calls).0.budget),
        evaluated(files, w, e, depth, calls).1 is Ok ==> evaluated(
            files,
            w,
            e,
            depth,
            calls,
        ).0.budget.steps->Some_0 < w.budget.steps->Some_0,
    decreases depth, 0nat, 1nat,
{
    if depth > 0 {
        let d = (depth - 1) as nat;
        let ev = evaluator(files, d, calls);
        let ap = applier(files, d, calls, NESTED_OPERATIONS as nat);
        evaluator_only_spends(files, d, calls);
        applier_only_spends(files, d, calls, NESTED_OPERATIONS as nat);
        reveal(entered_rule);
        let w1 = w.with_budget(w.budget.expr_entered());
        match w1.budget.stepped() {
            Ok(b) => {
                form_spends(w1.with_budget(b), e, ev, ap, d, calls);
            },
            Err(_) => {},
        }
    }
}

proof fn evaluator_only_spends(files: SFiles, depth: nat, calls: nat)
    ensures
        evaluator_spends(evaluator(files, depth, calls), depth, calls),
    decreases depth, 0nat, 2nat,
{
    let ev = evaluator(files, depth, calls);
    assert forall|w: SWorld, e: SChecked| funded(w, depth, calls) implies left_of(
        w.budget,
        (#[trigger] ev(w, e)).0.budget,
    ) by {
        evaluation_only_spends(files, w, e, depth, calls);
    }
}

proof fn application_only_spends(
    files: SFiles,
    w: SWorld,
    f: SValue,
    args: Seq<SValue>,
    signature: Option<SType>,
    depth: nat,
    calls: nat,
    hops: nat,
)
    requires
        funded(w, depth, calls),
    ensures
        left_of(w.budget, applied(files, w, f, args, signature, depth, calls, hops).0.budget),
    decreases depth, hops + 1, 1nat,
{
    match f {
        SValue::Fn(fun) => {
            if calls > 0 {
                let c = (calls - 1) as nat;
                let w1 = w.with_budget(w.budget.call_entered());
                evaluator_only_spends(files, depth, c);
                function_spends(w1, fun, args, signature, evaluator(files, depth, c), depth, c);
            }
        },
        SValue::BuiltinFn(name) => {
            if hops > 0 {
                let h = (hops - 1) as nat;
                applier_only_spends(files, depth, calls, h);
                builtin_spends(files, w, name, args, applier(files, depth, calls, h), depth, calls);
            }
        },
        _ => {},
    }
}

proof fn applier_only_spends(files: SFiles, depth: nat, calls: nat, hops: nat)
    ensures
        applier_spends(applier(files, depth, calls, hops), depth, calls),
    decreases depth, hops + 1, 2nat,
{
    let ap = applier(files, depth, calls, hops);
    assert forall|w: SWorld, v: SValue, args: Seq<SValue>, t: Option<SType>|
        funded(w, depth, calls) implies left_of(
        w.budget,
        (#[trigger] ap(w, v, args, t)).0.budget,
    ) by {
        application_only_spends(files, w, v, args, t, depth, calls, hops);
    }
}

} // verus!
