//! Evaluation of checked programs.

use std::sync::Arc;
use vstd::prelude::*;

use crate::ast::{
    arms_view, checked_fields_view, checked_view, clone_values, kind_name, params_view, share,
    string_of, value_fields_view, values_view, BindingId, CheckedBlock, CheckedExpr,
    CheckedExprKind, CheckedFn, CheckedMatchArm, CheckedParam, FnValue, FrameId, SArm, SBlock,
    SChecked, SCheckedFn, SConstructorId, SFn, SKind, SParam, SValue, Value,
};
use crate::builtins::opt_ref;
use crate::callbacks::{
    filter_rule, filtered, flat_map_rule, flattened, fold_rule, folded, indexed, indexed_rule,
    items_of, listed_result, map_rule, mapped, second_parts, sort_rule, sorted_by, with_keyed,
    Applier, SEval, SEvals,
};
use crate::calls::{call_result, called, called_at, check_call, check_resolved_call};
use crate::codec::{list_value, put_value, record_value, values_result};
use crate::collection::collection_due;
use crate::compatible::SSubst;
use crate::conformance::{
    checked_typed_value, realized, runtime_type, typed_value, validate_value, validated,
};
use crate::concrete::{ConcreteType, SConcrete};
use crate::env::{keyed, value_result, BindingForce, BindingHandle, Env, SEnv, SForce, SSlot};
use crate::error::{error_text, MagError, SError};
use crate::files::{data_rule, read_rule, run_read, run_read_json, Files, SFiles};
use crate::frames::after;
use crate::fuel::{enter_call, enter_expr, leave_call, leave_expr, step, Budget};
use crate::json::with_member;
use crate::memo::{forgets, is_forgetting, memoize_call, memoized_call, recalled, remembered};
use crate::modules::{all_defined, all_offered, bound_types, declarations};
use crate::operations::{
    append_values, arity, counted, eval_error, operation, run_operation,
};
use crate::resolve::{closed_type, type_error};
use crate::substitution::Substitution;
use crate::text::{cat2, cat3, cat4, clone_names, comes_before, decimal, same, show_u64, strings};
use crate::type_rules::unit_result;
use crate::types::{clone_types, types_view, MagType, SType};
use crate::values::{bare, is_true, raw, truthy};
use crate::world::{swept, SWorld, World};

verus! {

broadcast use vstd::seq_lib::group_seq_properties;

/// How many builtin functions may call each other before one of them calls a function of the
/// program: as many as can be counted.
pub const NESTED_OPERATIONS: u64 = u64::MAX;

/// How an expression is evaluated in a world.
pub type Evaluator = spec_fn(SWorld, SChecked) -> SEval;

/// The values of some expressions.
pub open spec fn all_evaluated(
    w: SWorld,
    items: Seq<SChecked>,
    ev: Evaluator,
    done: Seq<SValue>,
) -> SEvals
    decreases items.len() - done.len(),
{
    if done.len() >= items.len() {
        (w, Ok(done))
    } else {
        let (w1, r) = ev(w, items[done.len() as int]);
        match r {
            Err(e) => (w1, Err(e)),
            Ok(v) => all_evaluated(w1, items, ev, done.push(v)),
        }
    }
}

/// The values of the fields from `i` on, among those that were evaluated before.
pub open spec fn fields_evaluated(
    w: SWorld,
    items: Seq<(Seq<char>, SChecked)>,
    ev: Evaluator,
    i: nat,
    done: Seq<(Seq<char>, SValue)>,
) -> SEval
    decreases items.len() - i,
{
    if i >= items.len() {
        (w, Ok(SValue::Record(done)))
    } else {
        let (w1, r) = ev(w, items[i as int].1);
        match r {
            Err(e) => (w1, Err(e)),
            Ok(v) => fields_evaluated(
                w1,
                items,
                ev,
                i + 1,
                with_member(done, items[i as int].0, v),
            ),
        }
    }
}

pub open spec fn no_binding(id: BindingId) -> SError {
    SError::Unresolved("binding#"@ + decimal(id.0 as nat))
}

/// The value of a binding, which is initialized if it was not yet.
#[verifier::opaque]
pub open spec fn forced_rule(w: SWorld, id: BindingId, ev: Evaluator) -> SEval {
    match w.env.home(id) {
        None => (w, Err(no_binding(id))),
        Some(frame) => match w.forcing(frame, id) {
            Err(e) => (w, Err(e)),
            Ok(w1) => {
                let (env, force) = w1.env.begun(w1.env.handle(id, frame));
                let w2 = w1.with_env(env);
                match force {
                    Err(e) => (w2.unstacked(), Err(e)),
                    Ok(SForce::Ready(v)) => (w2.unstacked(), Ok(v)),
                    Ok(SForce::Initialize(h, init)) => {
                        let (w3, r) = ev(w2, init);
                        match r {
                            Ok(v) => match w3.env.settled(h, SSlot::Ready(v), " completed"@) {
                                Ok(e) => (w3.with_env(e).unstacked(), Ok(v)),
                                Err(e) => (w3.unstacked(), Err(e)),
                            },
                            Err(x) => match w3.env.settled(
                                h,
                                SSlot::Uninitialized(init),
                                " reset"@,
                            ) {
                                Ok(e) => (w3.with_env(e).unstacked(), Err(x)),
                                Err(e) => (w3.unstacked(), Err(e)),
                            },
                        }
                    },
                }
            },
        },
    }
}

/// The arm for a constructor, from `i` on.
pub open spec fn arm_at(arms: Seq<SArm>, id: SConstructorId, i: nat) -> Option<SArm>
    decreases arms.len() - i,
{
    if i >= arms.len() {
        None
    } else if arms[i as int].constructor == id {
        Some(arms[i as int])
    } else {
        arm_at(arms, id, i + 1)
    }
}

#[verifier::opaque]
pub open spec fn match_evaluated(
    w: SWorld,
    value: SChecked,
    arms: Seq<SArm>,
    ev: Evaluator,
) -> SEval {
    let (w1, r) = ev(w, value);
    match r {
        Err(e) => (w1, Err(e)),
        Ok(v) => match bare(v) {
            SValue::Adt(_, id, payload) => match arm_at(arms, id, 0) {
                None => (
                    w1,
                    type_error("match has no arm for selected constructor "@ + id.name),
                ),
                Some(arm) => {
                    let (w2, out) = ev(
                        w1.with_env(
                            w1.env.pushed().readied(arm.binding.id, arm.binding.name, *payload),
                        ),
                        *arm.body,
                    );
                    (w2.with_env(w2.env.popped()), out)
                },
            },
            _ => (w1, type_error("match value lacks selected constructor evidence"@)),
        },
    }
}

/// A call of what an expression stands for. While bindings are being initialized, a call of a
/// binding is part of what a circle of initializations is shown to go through.
#[verifier::opaque]
pub open spec fn call_evaluated(
    w: SWorld,
    callee: SChecked,
    args: Seq<SChecked>,
    ev: Evaluator,
    ap: Applier,
) -> SEval {
    let (w1, r) = ev(w, callee);
    match r {
        Err(e) => (w1, Err(e)),
        Ok(f) => {
            let (w2, vs) = all_evaluated(w1, args, ev, Seq::empty());
            match vs {
                Err(e) => (w2, Err(e)),
                Ok(values) => match callee.kind {
                    SKind::BindingRef(id) => if w2.stack.len() > 0 {
                        match w2.env.home(id) {
                            None => (w2, Err(no_binding(id))),
                            Some(frame) => {
                                let w3 = w2.stacked(frame, id, false);
                                let (w4, out) = ap(
                                    w3,
                                    f,
                                    values,
                                    Some(realized(w3.env, callee.ty)),
                                );
                                (w4.unstacked(), out)
                            },
                        }
                    } else {
                        ap(w2, f, values, Some(realized(w2.env, callee.ty)))
                    },
                    _ => ap(w2, f, values, Some(realized(w2.env, callee.ty))),
                },
            }
        },
    }
}

pub open spec fn param_names(params: Seq<SParam>) -> Seq<Seq<char>> {
    Seq::new(params.len(), |i: int| params[i].name)
}

pub open spec fn param_types(params: Seq<SParam>) -> Seq<SType> {
    Seq::new(params.len(), |i: int| params[i].ty)
}

/// A function of the program with what it closes over.
pub open spec fn closed_over(w: SWorld, f: SCheckedFn) -> SFn {
    SFn {
        identity: w.next_function,
        name: f.name,
        type_params: f.type_params,
        equality_params: f.equality_params,
        params: param_names(f.params),
        param_types: param_types(f.params),
        return_type: f.result,
        checked: f,
        closure: w.env.scopes,
    }
}

#[verifier::opaque]
pub open spec fn ascribed(w: SWorld, target: SType, value: SChecked, ev: Evaluator) -> SEval {
    let (w1, r) = ev(w, value);
    match r {
        Err(e) => (w1, Err(e)),
        Ok(v) => (w1, typed_value(w1.env, v, realized(w1.env, target))),
    }
}

#[verifier::opaque]
pub open spec fn constructed(
    w: SWorld,
    owner: SType,
    id: SConstructorId,
    payload: SChecked,
    ev: Evaluator,
) -> SEval {
    let (w1, r) = ev(w, payload);
    match r {
        Err(e) => (w1, Err(e)),
        Ok(v) => (w1, Ok(SValue::Adt(realized(w1.env, owner), id, Box::new(v)))),
    }
}

#[verifier::opaque]
pub open spec fn chosen(
    w: SWorld,
    condition: SChecked,
    yes: SChecked,
    no: SChecked,
    ev: Evaluator,
) -> SEval {
    let (w1, r) = ev(w, condition);
    match r {
        Err(e) => (w1, Err(e)),
        Ok(v) => if is_true(v) {
            ev(w1, yes)
        } else {
            ev(w1, no)
        },
    }
}

/// What an expression stands for.
#[verifier::opaque]
pub open spec fn form_rule(w: SWorld, e: SChecked, ev: Evaluator, ap: Applier) -> SEval {
    match e.kind {
        SKind::Unit => (w, Ok(SValue::Unit)),
        SKind::Str(v) => (w, Ok(SValue::Str(v))),
        SKind::Int(v) => (w, Ok(SValue::Int(v))),
        SKind::Float(v) => (w, Ok(SValue::Float(v))),
        SKind::Bool(v) => (w, Ok(SValue::Bool(v))),
        SKind::Keyword(v) => (w, Ok(SValue::Keyword(v))),
        SKind::BindingRef(id) => forced_rule(w, id, ev),
        SKind::Vector(items) => listed_result(all_evaluated(w, items, ev, Seq::empty())),
        SKind::Fields(items) => fields_evaluated(w, items, ev, 0, Seq::empty()),
        SKind::If(c, a, b) => chosen(w, *c, *a, *b, ev),
        SKind::Construct(owner, id, payload) => constructed(w, owner, id, *payload, ev),
        SKind::Match(value, arms) => match_evaluated(w, *value, arms, ev),
        SKind::Call(callee, args) => call_evaluated(w, *callee, args, ev, ap),
        SKind::Function(f) => (
            SWorld { next_function: after(w.next_function), ..w },
            Ok(SValue::Fn(closed_over(w, f))),
        ),
        SKind::Ascribe(target, value) => ascribed(w, target, *value, ev),
        SKind::TypeTag(t) => (
            w,
            match closed_type(w.env, realized(w.env, t)) {
                Ok(c) => Ok(SValue::TypeTag(c)),
                Err(x) => Err(x),
            },
        ),
    }
}

/// An expression is entered, a step is spent on it, and it is left again.
#[verifier::opaque]
pub open spec fn entered_rule(w: SWorld, e: SChecked, ev: Evaluator, ap: Applier) -> SEval {
    let w1 = w.with_budget(w.budget.expr_entered());
    match w1.budget.stepped() {
        Err(x) => (w1.with_budget(w1.budget.expr_left()), Err(x)),
        Ok(b) => {
            let (w2, r) = form_rule(w1.with_budget(b), e, ev, ap);
            (w2.with_budget(w2.budget.expr_left()), r)
        },
    }
}

/// An error that says in which function it came about.
pub open spec fn named_failure(doing: Seq<char>, name: Option<Seq<char>>, e: SError) -> SError {
    match name {
        Some(n) => SError::Type(doing + n + ": "@ + error_text(e)),
        None => e,
    }
}

/// The check of a call: the type of its result, and what the type variables stand for.
#[verifier::opaque]
pub open spec fn call_checked(
    w: SWorld,
    f: SFn,
    args: Seq<SValue>,
    signature: Option<SType>,
) -> (SWorld, Result<(SType, SSubst), SError>) {
    let (table, r) = match signature {
        Some(t) => called_at(w.env, w.table, f, t),
        None => called(w.env, w.table, f, args),
    };
    (
        SWorld { table, ..w },
        match r {
            Ok(x) => Ok(x),
            Err(e) => Err(named_failure("calling "@, f.name, e)),
        },
    )
}

/// The environment once parameters, from `i` on, stand for arguments.
pub open spec fn params_bound(
    env: SEnv,
    params: Seq<SParam>,
    args: Seq<SValue>,
    i: nat,
) -> SEnv
    decreases params.len() - i,
{
    if i >= params.len() || i >= args.len() {
        env
    } else {
        params_bound(
            env.readied(params[i as int].id, params[i as int].name, args[i as int]),
            params,
            args,
            i + 1,
        )
    }
}

/// The world in which the body of a function is evaluated.
#[verifier::opaque]
pub open spec fn call_entered(w: SWorld, f: SFn, args: Seq<SValue>, subst: SSubst) -> SWorld {
    let (e1, t1) = all_offered(w.env.call_scoped(f.closure), w.table, declarations(w.env));
    let (e2, t2) = all_defined(e1, t1, bound_types(subst));
    SWorld { env: params_bound(e2, f.checked.params, args, 0), table: t2, ..w }
}

/// What a call gives back of what the body came to.
#[verifier::opaque]
pub open spec fn call_returned(
    env: SEnv,
    f: SFn,
    out: Result<SValue, SError>,
    expected: SType,
) -> Result<SValue, SError> {
    match out {
        Err(e) => Err(e),
        Ok(v) => match validated(env, v, expected) {
            Err(e) => Err(named_failure("returning from "@, f.name, e)),
            Ok(_) => typed_value(env, v, expected),
        },
    }
}

/// The world once a call is over: a result is remembered, and frames are dropped where it is
/// time to.
#[verifier::opaque]
pub open spec fn call_settled(
    w: SWorld,
    f: SFn,
    args: Seq<SValue>,
    signature: Option<SType>,
    r: Result<SValue, SError>,
) -> SWorld {
    match r {
        Ok(v) => {
            let w1 = SWorld {
                memos: remembered(
                    w.memos,
                    w.limits.memoized_calls as nat,
                    f,
                    signature,
                    args,
                    v,
                ),
                forgot: w.forgot || forgets(w.memos, w.limits.memoized_calls as nat, args),
                ..w
            };
            if collection_due(w1.env) {
                swept(w1, seq![SValue::Fn(f)] + args + seq![v])
            } else {
                w1
            }
        },
        Err(_) => if collection_due(w.env) {
            swept(w, seq![SValue::Fn(f)] + args)
        } else {
            w
        },
    }
}

pub open spec fn initializing(name: Seq<char>, e: SError) -> SError {
    match e {
        SError::Type(m) => SError::Type("initializing "@ + name + ": "@ + m),
        SError::Eval(m) => SError::Eval("initializing "@ + name + ": "@ + m),
        other => other,
    }
}

/// The environment once the bindings of a block, from `i` on, are declared.
pub open spec fn slots_declared(env: SEnv, block: SBlock, i: nat) -> (SEnv, Result<(), SError>)
    decreases block.bindings.len() - i,
{
    if i >= block.bindings.len() {
        (env, Ok(()))
    } else {
        let b = block.bindings[i as int];
        match env.declared(b.id, b.name, b.initializer) {
            Err(e) => (env, Err(e)),
            Ok(e) => slots_declared(e, block, i + 1),
        }
    }
}

/// The world once the bindings of a block, from `i` on, are initialized.
pub open spec fn bindings_forced(w: SWorld, block: SBlock, ev: Evaluator, i: nat) -> (
    SWorld,
    Result<(), SError>,
)
    decreases block.bindings.len() - i,
{
    if i >= block.bindings.len() {
        (w, Ok(()))
    } else {
        let b = block.bindings[i as int];
        let (w1, r) = forced_rule(w, b.id, ev);
        match r {
            Err(e) => (w1, Err(initializing(b.name, e))),
            Ok(_) => bindings_forced(w1, block, ev, i + 1),
        }
    }
}

/// The value of the last of some expressions, from `i` on.
pub open spec fn last_evaluated(
    w: SWorld,
    items: Seq<SChecked>,
    ev: Evaluator,
    i: nat,
    last: SValue,
) -> SEval
    decreases items.len() - i,
{
    if i >= items.len() {
        (w, Ok(last))
    } else {
        let (w1, r) = ev(w, items[i as int]);
        match r {
            Err(e) => (w1, Err(e)),
            Ok(v) => last_evaluated(w1, items, ev, i + 1, v),
        }
    }
}

/// The value of a block: its bindings are declared, then initialized in their order, then its
/// expressions are evaluated.
#[verifier::opaque]
pub open spec fn block_rule(w: SWorld, block: SBlock, ev: Evaluator) -> SEval {
    let (env, declared) = slots_declared(w.env, block, 0);
    let w1 = w.with_env(env);
    match declared {
        Err(e) => (w1, Err(e)),
        Ok(_) => {
            let (w2, forced) = bindings_forced(w1, block, ev, 0);
            match forced {
                Err(e) => (w2, Err(e)),
                Ok(_) => last_evaluated(w2, block.expressions, ev, 0, SValue::Unit),
            }
        },
    }
}

/// A call of a function of the program, once it has been entered.
#[verifier::opaque]
pub open spec fn function_rule(
    w: SWorld,
    f: SFn,
    args: Seq<SValue>,
    signature: Option<SType>,
    ev: Evaluator,
) -> SEval {
    if args.len() != f.params.len() {
        (w, Err(SError::Arity(f.params.len(), args.len())))
    } else {
        let (w1, checked) = call_checked(w, f, args, signature);
        match checked {
            Err(e) => (w1, Err(e)),
            Ok((expected, subst)) => match recalled(w1.memos, f, signature, args) {
                Some(v) => (w1, Ok(v)),
                None => {
                    let (w2, out) = block_rule(
                        call_entered(w1, f, args, subst),
                        *f.checked.body,
                        ev,
                    );
                    let w3 = w2.with_env(w2.env.call_unscoped(w1.env.scopes));
                    let r = call_returned(w3.env, f, out, expected);
                    (call_settled(w3, f, args, signature, r), r)
                },
            },
        }
    }
}

/// A call of a builtin function.
#[verifier::opaque]
pub open spec fn builtin_rule(
    files: SFiles,
    w: SWorld,
    name: Seq<char>,
    args: Seq<SValue>,
    ap: Applier,
) -> SEval {
    if name == "map"@ {
        map_rule(w, args, ap)
    } else if name == "indexed-map"@ {
        indexed_rule(w, args, ap)
    } else if name == "filter"@ {
        filter_rule(w, args, ap)
    } else if name == "flat-map"@ {
        flat_map_rule(w, args, ap)
    } else if name == "fold"@ {
        fold_rule(w, args, ap)
    } else if name == "sort-by"@ {
        sort_rule(w, args, ap)
    } else if name == "read"@ {
        read_rule(files, w, args)
    } else if name == "read-json"@ {
        data_rule(files, w, args)
    } else {
        (w, operation(w.env, name, args))
    }
}

pub open spec fn calls_exhausted() -> SError {
    SError::Budget("function call depth limit reached"@)
}

/// What an expression stands for where expressions may still nest `depth` deep and calls `calls`
/// deep.
pub open spec fn evaluated(files: SFiles, w: SWorld, e: SChecked, depth: nat, calls: nat) -> SEval
    decreases depth, 0nat, 1nat,
{
    if depth == 0 {
        (w, Err(SError::Budget("expression nesting limit reached"@)))
    } else {
        entered_rule(
            w,
            e,
            evaluator(files, (depth - 1) as nat, calls),
            applier(files, (depth - 1) as nat, calls, NESTED_OPERATIONS as nat),
        )
    }
}

pub open spec fn evaluator(files: SFiles, depth: nat, calls: nat) -> Evaluator
    decreases depth, 0nat, 2nat,
{
    |w: SWorld, e: SChecked| evaluated(files, w, e, depth, calls)
}

/// What a function comes to, where it may call builtin functions nested `hops` deep.
pub open spec fn applied(
    files: SFiles,
    w: SWorld,
    f: SValue,
    args: Seq<SValue>,
    signature: Option<SType>,
    depth: nat,
    calls: nat,
    hops: nat,
) -> SEval
    decreases depth, hops + 1, 1nat,
{
    match f {
        SValue::Fn(fun) => if calls == 0 {
            (w, Err(calls_exhausted()))
        } else {
            let (w1, r) = function_rule(
                w.with_budget(w.budget.call_entered()),
                fun,
                args,
                signature,
                evaluator(files, depth, (calls - 1) as nat),
            );
            (w1.with_budget(w1.budget.call_left()), r)
        },
        SValue::BuiltinFn(name) => if hops == 0 {
            (w, Err(calls_exhausted()))
        } else {
            builtin_rule(files, w, name, args, applier(files, depth, calls, (hops - 1) as nat))
        },
        _ => (w, eval_error("cannot call "@ + kind_name(f))),
    }
}

pub open spec fn applier(files: SFiles, depth: nat, calls: nat, hops: nat) -> Applier
    decreases depth, hops + 1, 2nat,
{
    |w: SWorld, f: SValue, args: Seq<SValue>, signature: Option<SType>|
        applied(files, w, f, args, signature, depth, calls, hops)
}

/// How much deeper something may nest.
pub open spec fn left(at: u16, limit: u16) -> nat {
    if at <= limit {
        (limit - at) as nat
    } else {
        0
    }
}

/// Whether a budget lets expressions nest `depth` deeper and calls `calls` deeper.
pub open spec fn at_level(b: Budget, depth: nat, calls: nat) -> bool {
    depth == left(b.exprs, b.expr_limit) && calls == left(b.calls, b.call_limit)
}

/// Whether two budgets have the same counters of nesting.
pub open spec fn same_level(a: Budget, b: Budget) -> bool {
    a.exprs == b.exprs && a.calls == b.calls && a.expr_limit == b.expr_limit && a.call_limit
        == b.call_limit
}

pub(crate) fn eval_checked_expr(
    files: &Files,
    w: &mut World,
    e: &CheckedExpr,
    depth: u64,
    calls: u64,
) -> (r: Result<Value, MagError>)
    requires
        at_level(old(w)@.budget, depth as nat, calls as nat),
    ensures
        (final(w)@, value_result(r)) == evaluated(
            files@,
            old(w)@,
            e@,
            depth as nat,
            calls as nat,
        ),
        same_level(final(w)@.budget, old(w)@.budget),
    decreases depth, 0nat, 0nat, 0nat,
{
    proof {
        reveal(entered_rule);
    }
    let guard = match enter_expr(&mut w.budget) {
        Ok(g) => g,
        Err(x) => {
            return Err(x);
        },
    };
    match step(&mut w.budget) {
        Err(x) => {
            leave_expr(&mut w.budget, guard);
            Err(x)
        },
        Ok(_) => {
            let r = eval_form(files, w, e, depth - 1, calls);
            leave_expr(&mut w.budget, guard);
            r
        },
    }
}

fn eval_form(files: &Files, w: &mut World, e: &CheckedExpr, depth: u64, calls: u64) -> (r: Result<
    Value,
    MagError,
>)
    requires
        at_level(old(w)@.budget, depth as nat, calls as nat),
    ensures
        (final(w)@, value_result(r)) == form_rule(
            old(w)@,
            e@,
            evaluator(files@, depth as nat, calls as nat),
            applier(files@, depth as nat, calls as nat, NESTED_OPERATIONS as nat),
        ),
        same_level(final(w)@.budget, old(w)@.budget),
    decreases depth, NESTED_OPERATIONS as nat + 3, 1nat, 0nat,
{
    proof {
        reveal(form_rule);
        assert(e@.kind == e.kind.model());
    }
    match &e.kind {
        CheckedExprKind::Unit => Ok(Value::Unit),
        CheckedExprKind::Str(v) => Ok(Value::Str(v.clone())),
        CheckedExprKind::Int(v) => Ok(Value::Int(*v)),
        CheckedExprKind::Float(v) => Ok(Value::Float(v.clone())),
        CheckedExprKind::Bool(v) => Ok(Value::Bool(*v)),
        CheckedExprKind::Keyword(v) => Ok(Value::Keyword(v.clone())),
        CheckedExprKind::BindingRef(id) => force_binding(files, w, *id, depth, calls),
        CheckedExprKind::Vector(items) => {
            assert(e@.kind == SKind::Vector(checked_view(items@)));
            let values = eval_all(files, w, items, depth, calls)?;
            Ok(list_value(values))
        },
        CheckedExprKind::Fields(items) => {
            assert(e@.kind == SKind::Fields(checked_fields_view(items@)));
            eval_fields(files, w, items, depth, calls)
        },
        CheckedExprKind::If { condition, then_branch, else_branch } => {
            assert(e@.kind == SKind::If(
                Box::new(condition@),
                Box::new(then_branch@),
                Box::new(else_branch@),
            ));
            eval_if(files, w, condition, then_branch, else_branch, depth, calls)
        },
        CheckedExprKind::Construct { owner, constructor, payload } => {
            assert(e@.kind == SKind::Construct(owner@, constructor@, Box::new(payload@)));
            proof {
                reveal(constructed);
            }
            let ghost before = w@;
            let v = eval_checked_expr(files, w, payload, depth, calls);
            assert(evaluator(files@, depth as nat, calls as nat)(before, payload@) == (
                w@,
                value_result(v),
            ));
            let v = v?;
            let owner = runtime_type(&w.env, owner);
            Ok(
                Value::Adt {
                    owner,
                    constructor: constructor.clone(),
                    payload: Arc::new(v),
                },
            )
        },
        CheckedExprKind::Match { value, arms } => {
            assert(e@.kind == SKind::Match(Box::new(value@), arms_view(arms@)));
            eval_match(files, w, value, arms, depth, calls)
        },
        CheckedExprKind::Call { callee, args } => {
            assert(e@.kind == SKind::Call(Box::new(callee@), checked_view(args@)));
            eval_call(files, w, callee, args, depth, calls)
        },
        CheckedExprKind::Function(f) => {
            assert(e@.kind == SKind::Function((**f)@));
            Ok(make_function(w, f))
        },
        CheckedExprKind::Ascribe { target, value } => {
            assert(e@.kind == SKind::Ascribe(target@, Box::new(value@)));
            proof {
                reveal(ascribed);
            }
            let ghost before = w@;
            let v = eval_checked_expr(files, w, value, depth, calls);
            assert(evaluator(files@, depth as nat, calls as nat)(before, value@) == (
                w@,
                value_result(v),
            ));
            let v = v?;
            let ty = runtime_type(&w.env, target);
            checked_typed_value(&w.env, v, &ty)
        },
        CheckedExprKind::TypeTag(t) => {
            assert(e@.kind == SKind::TypeTag(t@));
            let ty = runtime_type(&w.env, t);
            let c = ConcreteType::resolve(&w.env, &ty)?;
            Ok(Value::TypeTag(c))
        },
    }
}

fn eval_if(
    files: &Files,
    w: &mut World,
    condition: &CheckedExpr,
    yes: &CheckedExpr,
    no: &CheckedExpr,
    depth: u64,
    calls: u64,
) -> (r: Result<Value, MagError>)
    requires
        at_level(old(w)@.budget, depth as nat, calls as nat),
    ensures
        (final(w)@, value_result(r)) == chosen(
            old(w)@,
            condition@,
            yes@,
            no@,
            evaluator(files@, depth as nat, calls as nat),
        ),
        same_level(final(w)@.budget, old(w)@.budget),
    decreases depth, 1nat, 0nat, 0nat,
{
    proof {
        reveal(chosen);
    }
    let ghost ev = evaluator(files@, depth as nat, calls as nat);
    let ghost w0 = w@;
    let c = eval_checked_expr(files, w, condition, depth, calls);
    assert(ev(w0, condition@) == (w@, value_result(c)));
    let c = c?;
    let ghost w1 = w@;
    if truthy(&c) {
        let r = eval_checked_expr(files, w, yes, depth, calls);
        assert(ev(w1, yes@) == (w@, value_result(r)));
        r
    } else {
        let r = eval_checked_expr(files, w, no, depth, calls);
        assert(ev(w1, no@) == (w@, value_result(r)));
        r
    }
}

fn eval_all(
    files: &Files,
    w: &mut World,
    items: &Vec<CheckedExpr>,
    depth: u64,
    calls: u64,
) -> (r: Result<Vec<Value>, MagError>)
    requires
        at_level(old(w)@.budget, depth as nat, calls as nat),
    ensures
        (final(w)@, values_result(r)) == all_evaluated(
            old(w)@,
            checked_view(items@),
            evaluator(files@, depth as nat, calls as nat),
            Seq::empty(),
        ),
        same_level(final(w)@.budget, old(w)@.budget),
        r is Ok ==> r->Ok_0@.len() == items@.len(),
    decreases depth, 1nat, 0nat, 0nat,
{
    let ghost all = checked_view(items@);
    let ghost ev = evaluator(files@, depth as nat, calls as nat);
    let ghost whole = all_evaluated(w@, all, ev, Seq::empty());
    let mut done: Vec<Value> = Vec::new();
    proof {
        assert(all.len() == items@.len());
        assert(values_view(done@) =~= Seq::empty());
    }
    while done.len() < items.len()
        invariant
            done.len() <= items.len(),
            all == checked_view(items@),
            all.len() == items@.len(),
            ev == evaluator(files@, depth as nat, calls as nat),
            whole == all_evaluated(old(w)@, all, ev, Seq::empty()),
            whole == all_evaluated(w@, all, ev, values_view(done@)),
            values_view(done@).len() == done@.len(),
            at_level(w@.budget, depth as nat, calls as nat),
            same_level(w@.budget, old(w)@.budget),
        decreases items.len() - done.len(),
    {
        let ghost so_far = values_view(done@);
        let ghost before = w@;
        let i = done.len();
        assert(all[i as int] == items@[i as int]@);
        let v = eval_checked_expr(files, w, &items[i], depth, calls);
        assert(ev(before, all[i as int]) == (w@, value_result(v)));
        let v = v?;
        done.push(v);
        assert(values_view(done@) =~= so_far.push(v@));
    }
    Ok(done)
}

fn eval_fields(
    files: &Files,
    w: &mut World,
    items: &Vec<(String, CheckedExpr)>,
    depth: u64,
    calls: u64,
) -> (r: Result<Value, MagError>)
    requires
        at_level(old(w)@.budget, depth as nat, calls as nat),
    ensures
        (final(w)@, value_result(r)) == fields_evaluated(
            old(w)@,
            checked_fields_view(items@),
            evaluator(files@, depth as nat, calls as nat),
            0,
            Seq::empty(),
        ),
        same_level(final(w)@.budget, old(w)@.budget),
    decreases depth, 1nat, 0nat, 0nat,
{
    let ghost all = checked_fields_view(items@);
    let ghost ev = evaluator(files@, depth as nat, calls as nat);
    let ghost whole = fields_evaluated(w@, all, ev, 0, Seq::empty());
    let mut done: Vec<(String, Value)> = Vec::new();
    let mut i: usize = 0;
    proof {
        assert(all.len() == items@.len());
        assert(value_fields_view(done@) =~= Seq::empty());
    }
    while i < items.len()
        invariant
            i <= items.len(),
            all == checked_fields_view(items@),
            all.len() == items@.len(),
            ev == evaluator(files@, depth as nat, calls as nat),
            whole == fields_evaluated(old(w)@, all, ev, 0, Seq::empty()),
            whole == fields_evaluated(w@, all, ev, i as nat, value_fields_view(done@)),
            at_level(w@.budget, depth as nat, calls as nat),
            same_level(w@.budget, old(w)@.budget),
        decreases items.len() - i,
    {
        let ghost before = w@;
        assert(all[i as int] == (items@[i as int].0@, items@[i as int].1@));
        let v = eval_checked_expr(files, w, &items[i].1, depth, calls);
        assert(ev(before, all[i as int].1) == (w@, value_result(v)));
        let v = v?;
        put_value(&mut done, items[i].0.clone(), v);
        i = i + 1;
    }
    Ok(record_value(done))
}

fn find_arm(arms: &Vec<CheckedMatchArm>, id: &crate::ast::ConstructorDeclarationId) -> (r: Option<
    usize,
>)
    ensures
        match r {
            Some(i) => i < arms@.len() && arm_at(arms_view(arms@), id@, 0) == Some(
                arms_view(arms@)[i as int],
            ),
            None => arm_at(arms_view(arms@), id@, 0) is None,
        },
{
    let ghost all = arms_view(arms@);
    let mut i: usize = 0;
    assert(all.len() == arms@.len());
    while i < arms.len()
        invariant
            i <= arms.len(),
            all == arms_view(arms@),
            all.len() == arms@.len(),
            arm_at(all, id@, 0) == arm_at(all, id@, i as nat),
        decreases arms.len() - i,
    {
        assert(all[i as int].constructor == arms@[i as int].constructor@);
        if arms[i].constructor.equals(id) {
            return Some(i);
        }
        i = i + 1;
    }
    None
}

fn eval_match(
    files: &Files,
    w: &mut World,
    value: &CheckedExpr,
    arms: &Vec<CheckedMatchArm>,
    depth: u64,
    calls: u64,
) -> (r: Result<Value, MagError>)
    requires
        at_level(old(w)@.budget, depth as nat, calls as nat),
    ensures
        (final(w)@, value_result(r)) == match_evaluated(
            old(w)@,
            value@,
            arms_view(arms@),
            evaluator(files@, depth as nat, calls as nat),
        ),
        same_level(final(w)@.budget, old(w)@.budget),
    decreases depth, 1nat, 0nat, 0nat,
{
    proof {
        reveal(match_evaluated);
    }
    let ghost ev = evaluator(files@, depth as nat, calls as nat);
    let ghost all = arms_view(arms@);
    let ghost w0 = w@;
    let v = eval_checked_expr(files, w, value, depth, calls);
    assert(ev(w0, value@) == (w@, value_result(v)));
    let v = v?;
    let ghost w1 = w@;
    match raw(&v) {
        Value::Adt { constructor, payload, .. } => match find_arm(arms, constructor) {
            None => Err(
                MagError::Type(
                    cat2("match has no arm for selected constructor ", &constructor.name),
                ),
            ),
            Some(i) => {
                let ghost arm = all[i as int];
                assert(arm.binding == arms@[i as int].binding@);
                assert(*arm.body == arms@[i as int].body@);
                w.env.push_scope();
                w.env.define_ready(
                    arms[i].binding.id,
                    &arms[i].binding.name,
                    (**payload).clone(),
                );
                let ghost w2 = w@;
                assert(w2 =~= w1.with_env(
                    w1.env.pushed().readied(arm.binding.id, arm.binding.name, payload@),
                ));
                let out = eval_checked_expr(files, w, &arms[i].body, depth, calls);
                assert(ev(w2, *arm.body) == (w@, value_result(out)));
                let ghost w3 = w@;
                w.env.pop_scope();
                assert(w@ =~= w3.with_env(w3.env.popped()));
                out
            },
        },
        _ => Err(MagError::Type("match value lacks selected constructor evidence".to_owned())),
    }
}

fn names_of(params: &Vec<CheckedParam>) -> (r: Vec<String>)
    ensures
        strings(r@) == param_names(params_view(params@)),
{
    let mut r: Vec<String> = Vec::new();
    let mut i: usize = 0;
    while i < params.len()
        invariant
            i <= params.len(),
            r.len() == i,
            forall|j: int| 0 <= j < i ==> (#[trigger] r@[j])@ == params@[j].name@,
        decreases params.len() - i,
    {
        r.push(params[i].name.clone());
        i = i + 1;
    }
    assert(strings(r@) =~= param_names(params_view(params@)));
    r
}

fn types_of(params: &Vec<CheckedParam>) -> (r: Vec<MagType>)
    ensures
        types_view(r@) == param_types(params_view(params@)),
{
    let mut r: Vec<MagType> = Vec::new();
    let mut i: usize = 0;
    while i < params.len()
        invariant
            i <= params.len(),
            r.len() == i,
            forall|j: int| 0 <= j < i ==> (#[trigger] r@[j])@ == params@[j].ty@,
        decreases params.len() - i,
    {
        r.push(params[i].ty.clone());
        i = i + 1;
    }
    assert(types_view(r@) =~= param_types(params_view(params@)));
    r
}

fn make_function(w: &mut World, f: &Arc<CheckedFn>) -> (r: Value)
    ensures
        r@ == SValue::Fn(closed_over(old(w)@, (**f)@)),
        final(w)@ == (SWorld { next_function: after(old(w)@.next_function), ..old(w)@ }),
{
    let ghost w0 = w@;
    let identity = w.take_function_identity();
    let function = FnValue {
        identity,
        name: match &f.name {
            Some(n) => Some(n.clone()),
            None => None,
        },
        type_params: clone_names(&f.type_params),
        equality_params: clone_names(&f.equality_params),
        params: names_of(&f.params),
        param_types: types_of(&f.params),
        return_type: f.result.clone(),
        checked: share(f),
        closure: w.env.snapshot(),
    };
    assert((**f)@ == (**f).model());
    assert((**f)@.params == params_view(f.params@));
    assert(function@ =~= closed_over(w0, (**f)@));
    Value::Fn(Arc::new(function))
}

fn eval_call(
    files: &Files,
    w: &mut World,
    callee: &CheckedExpr,
    args: &Vec<CheckedExpr>,
    depth: u64,
    calls: u64,
) -> (r: Result<Value, MagError>)
    requires
        at_level(old(w)@.budget, depth as nat, calls as nat),
    ensures
        (final(w)@, value_result(r)) == call_evaluated(
            old(w)@,
            callee@,
            checked_view(args@),
            evaluator(files@, depth as nat, calls as nat),
            applier(files@, depth as nat, calls as nat, NESTED_OPERATIONS as nat),
        ),
        same_level(final(w)@.budget, old(w)@.budget),
    decreases depth, NESTED_OPERATIONS as nat + 3, 0nat, 0nat,
{
    proof {
        reveal(call_evaluated);
        assert(callee@.kind == callee.kind.model());
        assert(callee@.ty == callee.ty@);
    }
    let ghost ev = evaluator(files@, depth as nat, calls as nat);
    let ghost ap = applier(files@, depth as nat, calls as nat, NESTED_OPERATIONS as nat);
    let ghost w0 = w@;
    let f = eval_checked_expr(files, w, callee, depth, calls);
    assert(ev(w0, callee@) == (w@, value_result(f)));
    let f = f?;
    let values = eval_all(files, w, args, depth, calls)?;
    let ghost given = values_view(values@);
    let ghost w2 = w@;
    match &callee.kind {
        CheckedExprKind::BindingRef(id) => {
            if w.stack.len() > 0 {
                let handle = match w.env.binding_handle(*id) {
                    Ok(h) => h,
                    Err(e) => {
                        return Err(e);
                    },
                };
                w.push_stack(handle.frame, *id, false);
                let ghost w3 = w@;
                let signature = runtime_type(&w.env, &callee.ty);
                let r = apply_with_signature(
                    files,
                    w,
                    &f,
                    &values,
                    Some(&signature),
                    depth,
                    calls,
                    NESTED_OPERATIONS,
                );
                assert(ap(w3, f@, given, Some(signature@)) == (w@, value_result(r)));
                w.pop_stack();
                return r;
            }
        },
        _ => {},
    }
    let signature = runtime_type(&w.env, &callee.ty);
    let r = apply_with_signature(
        files,
        w,
        &f,
        &values,
        Some(&signature),
        depth,
        calls,
        NESTED_OPERATIONS,
    );
    assert(ap(w2, f@, given, Some(signature@)) == (w@, value_result(r)));
    r
}

pub(crate) fn force_binding(
    files: &Files,
    w: &mut World,
    id: BindingId,
    depth: u64,
    calls: u64,
) -> (r: Result<Value, MagError>)
    requires
        at_level(old(w)@.budget, depth as nat, calls as nat),
    ensures
        (final(w)@, value_result(r)) == forced_rule(
            old(w)@,
            id,
            evaluator(files@, depth as nat, calls as nat),
        ),
        same_level(final(w)@.budget, old(w)@.budget),
    decreases depth, 1nat, 0nat, 0nat,
{
    proof {
        reveal(forced_rule);
        reveal(SWorld::forcing);
    }
    let ghost ev = evaluator(files@, depth as nat, calls as nat);
    let handle = w.env.binding_handle(id)?;
    w.enter_force(handle.frame, id)?;
    let ghost w1 = w@;
    let force = match w.env.begin_handle_force(&handle) {
        Ok(f) => f,
        Err(e) => {
            assert(w@ =~= w1.with_env(w1.env.begun(handle).0));
            w.pop_stack();
            return Err(e);
        },
    };
    let ghost w2 = w@;
    assert(w2 =~= w1.with_env(w1.env.begun(handle).0));
    match force {
        BindingForce::Ready(v) => {
            w.pop_stack();
            Ok(v)
        },
        BindingForce::Initialize { handle: h, initializer } => {
            let r = eval_checked_expr(files, w, &initializer, depth, calls);
            let ghost w3 = w@;
            assert(ev(w2, (*initializer)@) == (w3, value_result(r)));
            match r {
                Ok(v) => {
                    match w.env.complete_handle_force(&h, v.clone()) {
                        Ok(_) => {
                            assert(w@ =~= w3.with_env(w@.env));
                            w.pop_stack();
                            Ok(v)
                        },
                        Err(e) => {
                            assert(w@ =~= w3);
                            w.pop_stack();
                            Err(e)
                        },
                    }
                },
                Err(x) => {
                    match w.env.reset_handle_force(&h, initializer) {
                        Ok(_) => {
                            assert(w@ =~= w3.with_env(w@.env));
                            w.pop_stack();
                            Err(x)
                        },
                        Err(e) => {
                            assert(w@ =~= w3);
                            w.pop_stack();
                            Err(e)
                        },
                    }
                },
            }
        },
    }
}

fn binding_initialization_error(name: &str, e: MagError) -> (r: MagError)
    ensures
        r@ == initializing(name@, e@),
{
    match e {
        MagError::Type(m) => MagError::Type(cat4("initializing ", name, ": ", &m)),
        MagError::Eval(m) => MagError::Eval(cat4("initializing ", name, ": ", &m)),
        other => other,
    }
}

pub(crate) fn eval_checked_block(
    files: &Files,
    w: &mut World,
    block: &CheckedBlock,
    depth: u64,
    calls: u64,
) -> (r: Result<Value, MagError>)
    requires
        at_level(old(w)@.budget, depth as nat, calls as nat),
    ensures
        (final(w)@, value_result(r)) == block_rule(
            old(w)@,
            block@,
            evaluator(files@, depth as nat, calls as nat),
        ),
        same_level(final(w)@.budget, old(w)@.budget),
    decreases depth, 1nat, 1nat, 0nat,
{
    proof {
        reveal(block_rule);
    }
    let ghost b = block@;
    let ghost ev = evaluator(files@, depth as nat, calls as nat);
    let ghost w0 = w@;
    let ghost first = slots_declared(w0.env, b, 0);
    let mut i: usize = 0;
    proof {
        assert(b == block.model());
        assert(b.bindings.len() == block.bindings@.len());
        assert(b.expressions == checked_view(block.expressions@));
    }
    while i < block.bindings.len()
        invariant
            i <= block.bindings.len(),
            b == block.model(),
            b.bindings.len() == block.bindings@.len(),
            w0 == old(w)@,
            w@ == w0.with_env(w@.env),
            first == slots_declared(w0.env, b, 0),
            first == slots_declared(w@.env, b, i as nat),
            block@ == b,
            ev == evaluator(files@, depth as nat, calls as nat),
        decreases block.bindings.len() - i,
    {
        let ghost one = b.bindings[i as int];
        let ghost before = w@;
        proof {
            reveal(block_rule);
            assert(one.id == block.bindings@[i as int].id);
            assert(one.name == block.bindings@[i as int].name@);
            assert(one.initializer == (*block.bindings@[i as int].initializer)@);
        }
        let initializer = share(&block.bindings[i].initializer);
        let outcome = w.env.declare_binding_slot(
            block.bindings[i].id,
            &block.bindings[i].name,
            initializer,
        );
        assert(w@ =~= before.with_env(w@.env));
        match outcome {
            Ok(_) => {},
            Err(e) => {
                return Err(e);
            },
        }
        i = i + 1;
    }
    let ghost w1 = w@;
    let ghost second = bindings_forced(w1, b, ev, 0);
    let mut k: usize = 0;
    while k < block.bindings.len()
        invariant
            k <= block.bindings.len(),
            b == block.model(),
            block@ == b,
            b.bindings.len() == block.bindings@.len(),
            ev == evaluator(files@, depth as nat, calls as nat),
            w0 == old(w)@,
            first == slots_declared(w0.env, b, 0),
            first == (w1.env, Ok::<(), SError>(())),
            w1 == w0.with_env(first.0),
            second == bindings_forced(w1, b, ev, 0),
            second == bindings_forced(w@, b, ev, k as nat),
            at_level(w@.budget, depth as nat, calls as nat),
            same_level(w@.budget, old(w)@.budget),
        decreases block.bindings.len() - k,
    {
        let ghost one = b.bindings[k as int];
        proof {
            reveal(block_rule);
            assert(one.id == block.bindings@[k as int].id);
            assert(one.name == block.bindings@[k as int].name@);
        }
        match force_binding(files, w, block.bindings[k].id, depth, calls) {
            Ok(_) => {},
            Err(e) => {
                return Err(binding_initialization_error(&block.bindings[k].name, e));
            },
        }
        k = k + 1;
    }
    let ghost w2 = w@;
    let ghost third = last_evaluated(w2, b.expressions, ev, 0, SValue::Unit);
    let mut result = Value::Unit;
    let mut n: usize = 0;
    assert(b.expressions.len() == block.expressions@.len());
    while n < block.expressions.len()
        invariant
            n <= block.expressions.len(),
            b.expressions == checked_view(block.expressions@),
            b.expressions.len() == block.expressions@.len(),
            block@ == b,
            ev == evaluator(files@, depth as nat, calls as nat),
            w0 == old(w)@,
            slots_declared(w0.env, b, 0) == (w1.env, Ok::<(), SError>(())),
            w1 == w0.with_env(w1.env),
            bindings_forced(w1, b, ev, 0) == (w2, Ok::<(), SError>(())),
            third == last_evaluated(w2, b.expressions, ev, 0, SValue::Unit),
            third == last_evaluated(w@, b.expressions, ev, n as nat, result@),
            at_level(w@.budget, depth as nat, calls as nat),
            same_level(w@.budget, old(w)@.budget),
        decreases block.expressions.len() - n,
    {
        let ghost before = w@;
        proof {
            reveal(block_rule);
            assert(b.expressions[n as int] == block.expressions@[n as int]@);
        }
        let v = eval_checked_expr(files, w, &block.expressions[n], depth, calls);
        assert(ev(before, b.expressions[n as int]) == (w@, value_result(v)));
        match v {
            Ok(v) => {
                result = v;
            },
            Err(e) => {
                return Err(e);
            },
        }
        n = n + 1;
    }
    Ok(result)
}

fn name_failure(doing: &str, name: &Option<String>, e: MagError) -> (r: MagError)
    ensures
        r@ == named_failure(doing@, crate::ast::option_text(*name), e@),
{
    match name {
        Some(n) => MagError::Type(cat4(doing, n, ": ", &e.text())),
        None => e,
    }
}

fn check_function_call(
    w: &mut World,
    f: &FnValue,
    args: &Vec<Value>,
    signature: Option<&MagType>,
) -> (r: Result<(MagType, Substitution), MagError>)
    ensures
        (final(w)@, call_result(r)) == call_checked(
            old(w)@,
            f@,
            values_view(args@),
            opt_ref(signature),
        ),
{
    proof {
        reveal(call_checked);
    }
    let ghost before = w@;
    let r = match signature {
        Some(t) => check_resolved_call(&w.env, &mut w.table, f, t),
        None => check_call(&w.env, &mut w.table, f, args),
    };
    assert(w@ =~= SWorld { table: w@.table, ..before });
    match r {
        Ok(x) => Ok(x),
        Err(e) => Err(name_failure("calling ", &f.name, e)),
    }
}

fn bind_params_to(env: &mut Env, params: &Vec<CheckedParam>, args: &Vec<Value>)
    ensures
        final(env)@ == params_bound(old(env)@, params_view(params@), values_view(args@), 0),
{
    let ghost all = params_view(params@);
    let ghost given = values_view(args@);
    let ghost whole = params_bound(env@, all, given, 0);
    let mut i: usize = 0;
    assert(given.len() == args@.len());
    while i < params.len() && i < args.len()
        invariant
            i <= params.len(),
            i <= args.len(),
            all == params_view(params@),
            given == values_view(args@),
            given.len() == args@.len(),
            whole == params_bound(env@, all, given, i as nat),
        decreases params.len() - i,
    {
        assert(all[i as int] == params@[i as int]@);
        assert(given[i as int] == args@[i as int]@);
        env.define_ready(params[i].id, &params[i].name, args[i].clone());
        i = i + 1;
    }
}

fn enter_function(w: &mut World, f: &FnValue, args: &Vec<Value>, subst: &Substitution)
    ensures
        final(w)@ == call_entered(old(w)@, f@, values_view(args@), subst@),
{
    proof {
        reveal(call_entered);
        assert(f@.checked == (*f.checked)@);
        assert((*f.checked)@ == (*f.checked).model());
    }
    let ghost before = w@;
    let known = w.env.type_declarations();
    w.env.enter_call_scopes(&f.closure);
    w.env.define_type_declarations(&mut w.table, &known);
    w.env.define_types(&mut w.table, subst);
    bind_params_to(&mut w.env, &f.checked.params, args);
    assert(w@ =~= call_entered(before, f@, values_view(args@), subst@));
}

fn return_value(env: &Env, f: &FnValue, out: Result<Value, MagError>, expected: &MagType) -> (r:
    Result<Value, MagError>)
    ensures
        value_result(r) == call_returned(env@, f@, value_result(out), expected@),
{
    proof {
        reveal(call_returned);
    }
    let v = out?;
    match validate_value(env, &v, expected) {
        Ok(_) => checked_typed_value(env, v, expected),
        Err(e) => Err(name_failure("returning from ", &f.name, e)),
    }
}

fn settle_call(
    w: &mut World,
    f: &Arc<FnValue>,
    args: &Vec<Value>,
    signature: Option<&MagType>,
    r: &Result<Value, MagError>,
)
    ensures
        final(w)@ == call_settled(
            old(w)@,
            f@,
            values_view(args@),
            opt_ref(signature),
            value_result(*r),
        ),
{
    proof {
        reveal(call_settled);
        reveal(swept);
    }
    let ghost before = w@;
    let ghost given = values_view(args@);
    match r {
        Ok(v) => {
            let limit = w.limits.memoized_calls;
            if is_forgetting(&w.memos, limit, args) {
                w.forgot = true;
            }
            memoize_call(&mut w.memos, limit, f, signature, args, v);
            assert(w@ =~= SWorld { memos: w@.memos, forgot: w@.forgot, ..before });
            if w.env.frame_collection_due() {
                let mut roots: Vec<Value> = Vec::new();
                let function = Value::Fn(share(f));
                roots.push(function);
                assert(values_view(roots@) =~= seq![function@]);
                append_values(&mut roots, args);
                let ghost so_far = values_view(roots@);
                let result = v.clone();
                roots.push(result);
                assert(values_view(roots@) =~= so_far + seq![v@]);
                w.sweep(roots);
            }
        },
        Err(_) => {
            if w.env.frame_collection_due() {
                let mut roots: Vec<Value> = Vec::new();
                let function = Value::Fn(share(f));
                roots.push(function);
                assert(values_view(roots@) =~= seq![function@]);
                append_values(&mut roots, args);
                w.sweep(roots);
            }
        },
    }
}

fn apply_function(
    files: &Files,
    w: &mut World,
    f: &Arc<FnValue>,
    args: &Vec<Value>,
    signature: Option<&MagType>,
    depth: u64,
    calls: u64,
) -> (r: Result<Value, MagError>)
    requires
        at_level(old(w)@.budget, depth as nat, calls as nat),
    ensures
        (final(w)@, value_result(r)) == function_rule(
            old(w)@,
            f@,
            values_view(args@),
            opt_ref(signature),
            evaluator(files@, depth as nat, calls as nat),
        ),
        same_level(final(w)@.budget, old(w)@.budget),
    decreases depth, 1nat, 2nat, 0nat,
{
    proof {
        reveal(function_rule);
        reveal(call_checked);
        reveal(call_entered);
        reveal(call_settled);
        reveal(swept);
        assert(f@.checked == (*f.checked)@);
        assert((*f.checked)@ == (*f.checked).model());
        assert(values_view(args@).len() == args@.len());
    }
    if args.len() != f.params.len() {
        return Err(MagError::Arity { expected: f.params.len(), got: args.len() });
    }
    let (expected, subst) = check_function_call(w, f, args, signature)?;
    let ghost w1 = w@;
    match memoized_call(&w.memos, f, signature, args) {
        Some(v) => {
            return Ok(v);
        },
        None => {},
    }
    let scopes = w.env.snapshot();
    enter_function(w, f, args, &subst);
    let out = eval_checked_block(files, w, &f.checked.body, depth, calls);
    let ghost w2 = w@;
    w.env.leave_call_scopes(scopes);
    assert(w@ =~= w2.with_env(w2.env.call_unscoped(w1.env.scopes)));
    let r = return_value(&w.env, f, out, &expected);
    settle_call(w, f, args, signature, &r);
    r
}

/// Applies a function to arguments, with the signature that the call was resolved to, if it was.
pub(crate) fn apply_with_signature(
    files: &Files,
    w: &mut World,
    f: &Value,
    args: &Vec<Value>,
    signature: Option<&MagType>,
    depth: u64,
    calls: u64,
    hops: u64,
) -> (r: Result<Value, MagError>)
    requires
        at_level(old(w)@.budget, depth as nat, calls as nat),
    ensures
        (final(w)@, value_result(r)) == applied(
            files@,
            old(w)@,
            f@,
            values_view(args@),
            opt_ref(signature),
            depth as nat,
            calls as nat,
            hops as nat,
        ),
        same_level(final(w)@.budget, old(w)@.budget),
    decreases depth, hops as nat + 2, 3nat, 0nat,
{
    match f {
        Value::Fn(function) => {
            assert(f@ == SValue::Fn(function@));
            let guard = match enter_call(&mut w.budget) {
                Ok(g) => g,
                Err(e) => {
                    return Err(e);
                },
            };
            let r = apply_function(files, w, function, args, signature, depth, calls - 1);
            leave_call(&mut w.budget, guard);
            r
        },
        Value::BuiltinFn(name) => {
            if hops == 0 {
                return Err(MagError::Budget("function call depth limit reached".to_owned()));
            }
            builtin(files, w, name, args, depth, calls, hops - 1)
        },
        _ => Err(MagError::Eval(cat2("cannot call ", f.kind_text()))),
    }
}

fn builtin(
    files: &Files,
    w: &mut World,
    name: &str,
    args: &Vec<Value>,
    depth: u64,
    calls: u64,
    hops: u64,
) -> (r: Result<Value, MagError>)
    requires
        at_level(old(w)@.budget, depth as nat, calls as nat),
    ensures
        (final(w)@, value_result(r)) == builtin_rule(
            files@,
            old(w)@,
            name@,
            values_view(args@),
            applier(files@, depth as nat, calls as nat, hops as nat),
        ),
        same_level(final(w)@.budget, old(w)@.budget),
    decreases depth, hops as nat + 3, 2nat, 0nat,
{
    proof {
        reveal(builtin_rule);
        reveal(read_rule);
        reveal(data_rule);
    }
    if same(name, "map") {
        run_map(files, w, args, depth, calls, hops)
    } else if same(name, "indexed-map") {
        run_indexed_map(files, w, args, depth, calls, hops)
    } else if same(name, "filter") {
        run_filter(files, w, args, depth, calls, hops)
    } else if same(name, "flat-map") {
        run_flat_map(files, w, args, depth, calls, hops)
    } else if same(name, "fold") {
        run_fold(files, w, args, depth, calls, hops)
    } else if same(name, "sort-by") {
        run_sort_by(files, w, args, depth, calls, hops)
    } else if same(name, "read") {
        run_read(files, w, args)
    } else if same(name, "read-json") {
        run_read_json(files, w, args)
    } else {
        run_operation(&w.env, name, args)
    }
}

fn list_items<'a>(name: &str, v: &'a Value) -> (r: Result<&'a Vec<Value>, MagError>)
    ensures
        match r {
            Ok(items) => items_of(name@, v@) == Ok::<Seq<SValue>, SError>(values_view(items@)),
            Err(e) => items_of(name@, v@) == Err::<Seq<SValue>, SError>(e@),
        },
{
    match raw(v) {
        Value::List(items) => Ok(items),
        _ => Err(MagError::Eval(cat2(name, " expects a collection"))),
    }
}

/// Calls back with one argument.
fn call_one(
    files: &Files,
    w: &mut World,
    f: &Value,
    v: &Value,
    depth: u64,
    calls: u64,
    hops: u64,
) -> (r: Result<Value, MagError>)
    requires
        at_level(old(w)@.budget, depth as nat, calls as nat),
    ensures
        (final(w)@, value_result(r)) == applier(
            files@,
            depth as nat,
            calls as nat,
            hops as nat,
        )(old(w)@, f@, seq![v@], None),
        same_level(final(w)@.budget, old(w)@.budget),
    decreases depth, hops as nat + 3, 0nat, 0nat,
{
    let mut args: Vec<Value> = Vec::new();
    args.push(v.clone());
    assert(values_view(args@) =~= seq![v@]);
    apply_with_signature(files, w, f, &args, None, depth, calls, hops)
}

/// Calls back with two arguments.
fn call_two(
    files: &Files,
    w: &mut World,
    f: &Value,
    a: Value,
    b: &Value,
    depth: u64,
    calls: u64,
    hops: u64,
) -> (r: Result<Value, MagError>)
    requires
        at_level(old(w)@.budget, depth as nat, calls as nat),
    ensures
        (final(w)@, value_result(r)) == applier(
            files@,
            depth as nat,
            calls as nat,
            hops as nat,
        )(old(w)@, f@, seq![a@, b@], None),
        same_level(final(w)@.budget, old(w)@.budget),
    decreases depth, hops as nat + 3, 0nat, 0nat,
{
    let ghost first = a@;
    let mut args: Vec<Value> = Vec::new();
    args.push(a);
    args.push(b.clone());
    assert(values_view(args@) =~= seq![first, b@]);
    apply_with_signature(files, w, f, &args, None, depth, calls, hops)
}

fn run_map(
    files: &Files,
    w: &mut World,
    args: &Vec<Value>,
    depth: u64,
    calls: u64,
    hops: u64,
) -> (r: Result<Value, MagError>)
    requires
        at_level(old(w)@.budget, depth as nat, calls as nat),
    ensures
        (final(w)@, value_result(r)) == map_rule(
            old(w)@,
            values_view(args@),
            applier(files@, depth as nat, calls as nat, hops as nat),
        ),
        same_level(final(w)@.budget, old(w)@.budget),
    decreases depth, hops as nat + 3, 1nat, 0nat,
{
    proof {
        reveal(map_rule);
    }
    arity(args, 2)?;
    let items = list_items("map", &args[1])?;
    let ghost all = values_view(items@);
    let ghost given = values_view(args@);
    let ghost ap = applier(files@, depth as nat, calls as nat, hops as nat);
    let ghost whole = mapped(w@, given[0], all, ap, Seq::empty());
    let mut done: Vec<Value> = Vec::new();
    proof {
        assert(all.len() == items@.len());
        assert(values_view(done@) =~= Seq::empty());
    }
    while done.len() < items.len()
        invariant
            done.len() <= items.len(),
            args@.len() == 2,
            given == values_view(args@),
            given.len() == 2,
            given[0] == args@[0]@,
            all == values_view(items@),
            all.len() == items@.len(),
            items_of("map"@, given[1]) == Ok::<Seq<SValue>, SError>(all),
            ap == applier(files@, depth as nat, calls as nat, hops as nat),
            whole == mapped(old(w)@, given[0], all, ap, Seq::empty()),
            whole == mapped(w@, given[0], all, ap, values_view(done@)),
            values_view(done@).len() == done@.len(),
            at_level(w@.budget, depth as nat, calls as nat),
            same_level(w@.budget, old(w)@.budget),
        decreases items.len() - done.len(),
    {
        let ghost so_far = values_view(done@);
        let i = done.len();
        proof {
            reveal(map_rule);
            assert(all[i as int] == items@[i as int]@);
        }
        let v = call_one(files, w, &args[0], &items[i], depth, calls, hops)?;
        done.push(v);
        assert(values_view(done@) =~= so_far.push(v@));
    }
    Ok(list_value(done))
}

fn run_indexed_map(
    files: &Files,
    w: &mut World,
    args: &Vec<Value>,
    depth: u64,
    calls: u64,
    hops: u64,
) -> (r: Result<Value, MagError>)
    requires
        at_level(old(w)@.budget, depth as nat, calls as nat),
    ensures
        (final(w)@, value_result(r)) == indexed_rule(
            old(w)@,
            values_view(args@),
            applier(files@, depth as nat, calls as nat, hops as nat),
        ),
        same_level(final(w)@.budget, old(w)@.budget),
    decreases depth, hops as nat + 3, 1nat, 0nat,
{
    proof {
        reveal(indexed_rule);
    }
    arity(args, 2)?;
    let items = list_items("indexed-map", &args[1])?;
    let ghost all = values_view(items@);
    let ghost given = values_view(args@);
    let ghost ap = applier(files@, depth as nat, calls as nat, hops as nat);
    let ghost whole = indexed(w@, given[0], all, ap, Seq::empty());
    let mut done: Vec<Value> = Vec::new();
    proof {
        assert(all.len() == items@.len());
        assert(values_view(done@) =~= Seq::empty());
    }
    while done.len() < items.len()
        invariant
            done.len() <= items.len(),
            args@.len() == 2,
            given == values_view(args@),
            given.len() == 2,
            given[0] == args@[0]@,
            all == values_view(items@),
            all.len() == items@.len(),
            items_of("indexed-map"@, given[1]) == Ok::<Seq<SValue>, SError>(all),
            ap == applier(files@, depth as nat, calls as nat, hops as nat),
            whole == indexed(old(w)@, given[0], all, ap, Seq::empty()),
            whole == indexed(w@, given[0], all, ap, values_view(done@)),
            values_view(done@).len() == done@.len(),
            at_level(w@.budget, depth as nat, calls as nat),
            same_level(w@.budget, old(w)@.budget),
        decreases items.len() - done.len(),
    {
        let ghost so_far = values_view(done@);
        let i = done.len();
        proof {
            reveal(indexed_rule);
            assert(all[i as int] == items@[i as int]@);
        }
        let number = Value::Int(i as i64);
        let v = call_two(files, w, &args[0], number, &items[i], depth, calls, hops)?;
        done.push(v);
        assert(values_view(done@) =~= so_far.push(v@));
    }
    Ok(list_value(done))
}

fn run_filter(
    files: &Files,
    w: &mut World,
    args: &Vec<Value>,
    depth: u64,
    calls: u64,
    hops: u64,
) -> (r: Result<Value, MagError>)
    requires
        at_level(old(w)@.budget, depth as nat, calls as nat),
    ensures
        (final(w)@, value_result(r)) == filter_rule(
            old(w)@,
            values_view(args@),
            applier(files@, depth as nat, calls as nat, hops as nat),
        ),
        same_level(final(w)@.budget, old(w)@.budget),
    decreases depth, hops as nat + 3, 1nat, 0nat,
{
    proof {
        reveal(filter_rule);
    }
    arity(args, 2)?;
    let items = list_items("filter", &args[1])?;
    let ghost all = values_view(items@);
    let ghost given = values_view(args@);
    let ghost ap = applier(files@, depth as nat, calls as nat, hops as nat);
    let ghost whole = filtered(w@, given[0], all, ap, 0, Seq::empty());
    let mut done: Vec<Value> = Vec::new();
    let mut i: usize = 0;
    proof {
        assert(all.len() == items@.len());
        assert(values_view(done@) =~= Seq::empty());
    }
    while i < items.len()
        invariant
            i <= items.len(),
            args@.len() == 2,
            given == values_view(args@),
            given.len() == 2,
            given[0] == args@[0]@,
            all == values_view(items@),
            all.len() == items@.len(),
            items_of("filter"@, given[1]) == Ok::<Seq<SValue>, SError>(all),
            ap == applier(files@, depth as nat, calls as nat, hops as nat),
            whole == filtered(old(w)@, given[0], all, ap, 0, Seq::empty()),
            whole == filtered(w@, given[0], all, ap, i as nat, values_view(done@)),
            at_level(w@.budget, depth as nat, calls as nat),
            same_level(w@.budget, old(w)@.budget),
        decreases items.len() - i,
    {
        let ghost so_far = values_view(done@);
        proof {
            reveal(filter_rule);
            assert(all[i as int] == items@[i as int]@);
        }
        let v = call_one(files, w, &args[0], &items[i], depth, calls, hops)?;
        if truthy(&v) {
            let kept = items[i].clone();
            done.push(kept);
            assert(values_view(done@) =~= so_far.push(kept@));
        }
        i = i + 1;
    }
    Ok(list_value(done))
}

fn run_flat_map(
    files: &Files,
    w: &mut World,
    args: &Vec<Value>,
    depth: u64,
    calls: u64,
    hops: u64,
) -> (r: Result<Value, MagError>)
    requires
        at_level(old(w)@.budget, depth as nat, calls as nat),
    ensures
        (final(w)@, value_result(r)) == flat_map_rule(
            old(w)@,
            values_view(args@),
            applier(files@, depth as nat, calls as nat, hops as nat),
        ),
        same_level(final(w)@.budget, old(w)@.budget),
    decreases depth, hops as nat + 3, 1nat, 0nat,
{
    proof {
        reveal(flat_map_rule);
    }
    arity(args, 2)?;
    let items = list_items("flat-map", &args[1])?;
    let ghost all = values_view(items@);
    let ghost given = values_view(args@);
    let ghost ap = applier(files@, depth as nat, calls as nat, hops as nat);
    let ghost whole = flattened(w@, given[0], all, ap, 0, Seq::empty());
    let mut done: Vec<Value> = Vec::new();
    let mut i: usize = 0;
    proof {
        assert(all.len() == items@.len());
        assert(values_view(done@) =~= Seq::empty());
    }
    while i < items.len()
        invariant
            i <= items.len(),
            args@.len() == 2,
            given == values_view(args@),
            given.len() == 2,
            given[0] == args@[0]@,
            all == values_view(items@),
            all.len() == items@.len(),
            items_of("flat-map"@, given[1]) == Ok::<Seq<SValue>, SError>(all),
            ap == applier(files@, depth as nat, calls as nat, hops as nat),
            whole == flattened(old(w)@, given[0], all, ap, 0, Seq::empty()),
            whole == flattened(w@, given[0], all, ap, i as nat, values_view(done@)),
            at_level(w@.budget, depth as nat, calls as nat),
            same_level(w@.budget, old(w)@.budget),
        decreases items.len() - i,
    {
        proof {
            reveal(flat_map_rule);
            assert(all[i as int] == items@[i as int]@);
        }
        let v = call_one(files, w, &args[0], &items[i], depth, calls, hops)?;
        let more = list_items("flat-map", &v)?;
        append_values(&mut done, more);
        i = i + 1;
    }
    Ok(list_value(done))
}

fn run_fold(
    files: &Files,
    w: &mut World,
    args: &Vec<Value>,
    depth: u64,
    calls: u64,
    hops: u64,
) -> (r: Result<Value, MagError>)
    requires
        at_level(old(w)@.budget, depth as nat, calls as nat),
    ensures
        (final(w)@, value_result(r)) == fold_rule(
            old(w)@,
            values_view(args@),
            applier(files@, depth as nat, calls as nat, hops as nat),
        ),
        same_level(final(w)@.budget, old(w)@.budget),
    decreases depth, hops as nat + 3, 1nat, 0nat,
{
    proof {
        reveal(fold_rule);
    }
    arity(args, 3)?;
    let items = list_items("fold", &args[2])?;
    let ghost all = values_view(items@);
    let ghost given = values_view(args@);
    let ghost ap = applier(files@, depth as nat, calls as nat, hops as nat);
    let ghost whole = folded(w@, given[0], given[1], all, ap, 0);
    let mut acc = args[1].clone();
    let mut i: usize = 0;
    assert(all.len() == items@.len());
    while i < items.len()
        invariant
            i <= items.len(),
            args@.len() == 3,
            given == values_view(args@),
            given.len() == 3,
            given[0] == args@[0]@,
            all == values_view(items@),
            all.len() == items@.len(),
            items_of("fold"@, given[2]) == Ok::<Seq<SValue>, SError>(all),
            ap == applier(files@, depth as nat, calls as nat, hops as nat),
            whole == folded(old(w)@, given[0], given[1], all, ap, 0),
            whole == folded(w@, given[0], acc@, all, ap, i as nat),
            at_level(w@.budget, depth as nat, calls as nat),
            same_level(w@.budget, old(w)@.budget),
        decreases items.len() - i,
    {
        proof {
            reveal(fold_rule);
            assert(all[i as int] == items@[i as int]@);
        }
        acc = call_two(files, w, &args[0], acc, &items[i], depth, calls, hops)?;
        i = i + 1;
    }
    Ok(acc)
}

fn place_keyed(sorted: &mut Vec<(String, Value)>, key: String, v: Value)
    ensures
        value_fields_view(final(sorted)@) == with_keyed(
            value_fields_view(old(sorted)@),
            key@,
            v@,
        ),
    decreases old(sorted)@.len(),
{
    let ghost before = value_fields_view(sorted@);
    let ghost entry = (key@, v@);
    assert(before.len() == sorted@.len());
    if sorted.len() > 0 {
        let last = sorted.len() - 1;
        assert(before.last() == (sorted@[last as int].0@, sorted@[last as int].1@));
        if comes_before(&key, &sorted[last].0) {
            let ghost kept = sorted@.last();
            match sorted.pop() {
                Some(top) => {
                    assert(value_fields_view(sorted@) =~= before.drop_last());
                    place_keyed(sorted, key, v);
                    let ghost inner = value_fields_view(sorted@);
                    sorted.push(top);
                    assert(value_fields_view(sorted@) =~= inner.push(before.last()));
                },
                None => {},
            }
            return;
        }
    }
    sorted.push((key, v));
    assert(value_fields_view(sorted@) =~= before.push(entry));
}

fn run_sort_by(
    files: &Files,
    w: &mut World,
    args: &Vec<Value>,
    depth: u64,
    calls: u64,
    hops: u64,
) -> (r: Result<Value, MagError>)
    requires
        at_level(old(w)@.budget, depth as nat, calls as nat),
    ensures
        (final(w)@, value_result(r)) == sort_rule(
            old(w)@,
            values_view(args@),
            applier(files@, depth as nat, calls as nat, hops as nat),
        ),
        same_level(final(w)@.budget, old(w)@.budget),
    decreases depth, hops as nat + 3, 1nat, 0nat,
{
    proof {
        reveal(sort_rule);
    }
    arity(args, 2)?;
    let items = list_items("sort-by", &args[1])?;
    let ghost all = values_view(items@);
    let ghost given = values_view(args@);
    let ghost ap = applier(files@, depth as nat, calls as nat, hops as nat);
    let ghost whole = sorted_by(w@, given[0], all, ap, 0, Seq::empty());
    let mut done: Vec<(String, Value)> = Vec::new();
    let mut i: usize = 0;
    proof {
        assert(all.len() == items@.len());
        assert(value_fields_view(done@) =~= Seq::empty());
    }
    while i < items.len()
        invariant
            i <= items.len(),
            args@.len() == 2,
            given == values_view(args@),
            given.len() == 2,
            given[0] == args@[0]@,
            all == values_view(items@),
            all.len() == items@.len(),
            items_of("sort-by"@, given[1]) == Ok::<Seq<SValue>, SError>(all),
            ap == applier(files@, depth as nat, calls as nat, hops as nat),
            whole == sorted_by(old(w)@, given[0], all, ap, 0, Seq::empty()),
            whole == sorted_by(w@, given[0], all, ap, i as nat, value_fields_view(done@)),
            at_level(w@.budget, depth as nat, calls as nat),
            same_level(w@.budget, old(w)@.budget),
        decreases items.len() - i,
    {
        proof {
            reveal(sort_rule);
            assert(all[i as int] == items@[i as int]@);
        }
        let v = call_one(files, w, &args[0], &items[i], depth, calls, hops)?;
        match v.as_str() {
            None => {
                return Err(MagError::Eval("sort-by callback must return String".to_owned()));
            },
            Some(key) => {
                place_keyed(&mut done, key.to_owned(), items[i].clone());
            },
        }
        i = i + 1;
    }
    let ghost pairs = value_fields_view(done@);
    let mut out: Vec<Value> = Vec::new();
    let mut k: usize = 0;
    assert(pairs.len() == done@.len());
    while k < done.len()
        invariant
            k <= done.len(),
            pairs == value_fields_view(done@),
            pairs.len() == done@.len(),
            out.len() == k,
            forall|j: int| 0 <= j < k ==> (#[trigger] out@[j])@ == pairs[j].1,
        decreases done.len() - k,
    {
        assert(pairs[k as int] == (done@[k as int].0@, done@[k as int].1@));
        out.push(done[k].1.clone());
        k = k + 1;
    }
    assert(values_view(out@) =~= second_parts(pairs));
    Ok(list_value(out))
}

} // verus!
