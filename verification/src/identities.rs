//! Identities of bindings are given out once: whatever is checked, compiled or evaluated, the table
//! of bindings only goes on to greater identities.

use vstd::prelude::*;

use crate::ast::{
    BindingId, SArm, SBinding, SChecked, SConstructorId, SFn, SKind, SParam, SValue,
};
use crate::authored::{SAuthoredType, SExpr, SFunction, SItem, SMatchArm};
use crate::bindings::SBindings;
use crate::calls::{called, called_at};
use crate::candidates::{
    all_visible, as_vars, builtin_of, declared, instance, instance_requirements, instance_vars,
    resolved_requirements, scope_candidates, scope_locals, scope_vars, SCandidate, SScope,
};
use crate::compatible::{fit_binding, fit_static, SSubst};
use crate::compile::{
    self, all_made, allocated, args_specialized, arguments, arm_bodies, arm_result, arms_rule,
    artifact_call, binder_scope, bindings_made, block_made, block_parts, block_scope, body_value,
    builtin_call, call_args, call_made, candidate_call, candidate_calls, closed_function,
    collection_call, compiled, constrained_by, constrained_call, declared_type, expressions_made,
    field_values, field_wanted, finished, first_positions, fold_call, form_made, function_made,
    function_rule, functions_declared, general_call, get_call, item_values, items_made,
    last_expression, let_name, let_names, let_value, list_item, map_empty_call, maps_over,
    match_rule, named_call_rule, overloaded_call, params_declared, plain_candidate, record_rule,
    str_call, strict_pass, strict_rounds, strict_type, value_args, value_call_rule, vector_rule,
    BodyMaker, ItemMaker, Maker, SLets, ScopedMaker,
};
use crate::env::SEnv;
use crate::error::SError;
use crate::infer::{
    self, argument_types, inferred, inferred_all, inferred_arms, inferred_fields, inferred_like,
    named_call, parameter_types, signature, with_local, Arguments, SLocals,
};
use crate::requirements::{
    binding_requirements, finalized, own_obligations, requirement_pass, settled_requirements,
};
use crate::specialize::{
    field_expected, item_expected, specialization, specialized, specialized_args, specialized_arms,
    specialized_bindings, specialized_each, specialized_fields, specialized_items,
    specialized_kind,
};
use crate::substitution::apply;
use crate::type_rules::{constructor_of, denoted, required_all, required_equality, with_field};
use crate::types::SType;

verus! {

broadcast use vstd::seq_lib::group_seq_properties;

/// Whether a table comes of another: no identity that the other has yet to give out was given out
/// before.
pub open spec fn goes_on(a: SBindings, b: SBindings) -> bool {
    a.next <= b.next
}

proof fn equality_goes_on(
    env: SEnv,
    table: SBindings,
    types: Seq<SType>,
    subst: Map<Seq<char>, SType>,
)
    ensures
        goes_on(table, required_all(env, table, types, subst).0),
    decreases types.len(),
{
    if types.len() > 0 {
        let after = required_equality(env, table, apply(types[0], subst)).0;
        equality_goes_on(env, after, types.drop_first(), subst);
    }
}

/// The check of a call gives out no identity twice.
pub proof fn call_goes_on(
    env: SEnv,
    table: SBindings,
    f: SFn,
    args: Seq<SValue>,
    resolved: SType,
)
    ensures
        goes_on(table, called(env, table, f, args).0),
        goes_on(table, called_at(env, table, f, resolved).0),
{
    reveal(called);
    reveal(called_at);
    assert forall|subst: SSubst|
        goes_on(
            table,
            (#[trigger] required_all(env, table, as_vars(f.equality_params), subst)).0,
        ) by {
        equality_goes_on(env, table, as_vars(f.equality_params), subst);
    }
}

/// Whether looking at arguments only goes on.
pub open spec fn arguments_go_on(of: Arguments, n: nat) -> bool {
    forall|s: SBindings, i: int| 0 <= i < n ==> goes_on(s, (#[trigger] of(s, i)).0)
}

proof fn inferred_value_type_id_goes_on(
    env: SEnv,
    s0: SBindings,
    name: Seq<char>,
    args: Seq<SExpr>,
    of: Arguments,
)
    requires
        arguments_go_on(of, args.len()),
    ensures
        goes_on(s0, infer::value_type_id_rule(env, s0, name, args, of).0),
{
    reveal(infer::value_type_id_rule);
}

proof fn inferred_map_empty_goes_on(
    env: SEnv,
    s0: SBindings,
    name: Seq<char>,
    args: Seq<SExpr>,
    of: Arguments,
)
    requires
        arguments_go_on(of, args.len()),
    ensures
        goes_on(s0, infer::map_empty_rule(env, s0, name, args, of).0),
{
    reveal(infer::map_empty_rule);
}

proof fn inferred_map_access_goes_on(
    env: SEnv,
    s0: SBindings,
    name: Seq<char>,
    args: Seq<SExpr>,
    of: Arguments,
)
    requires
        arguments_go_on(of, args.len()),
    ensures
        goes_on(s0, infer::map_access_rule(env, s0, name, args, of).0),
{
    reveal(infer::map_access_rule);
}

proof fn inferred_map_union_goes_on(
    env: SEnv,
    s0: SBindings,
    name: Seq<char>,
    args: Seq<SExpr>,
    of: Arguments,
)
    requires
        arguments_go_on(of, args.len()),
    ensures
        goes_on(s0, infer::map_union_rule(env, s0, name, args, of).0),
{
    reveal(infer::map_union_rule);
}

proof fn inferred_map_count_goes_on(
    env: SEnv,
    s0: SBindings,
    name: Seq<char>,
    args: Seq<SExpr>,
    of: Arguments,
)
    requires
        arguments_go_on(of, args.len()),
    ensures
        goes_on(s0, infer::map_count_rule(env, s0, name, args, of).0),
{
    reveal(infer::map_count_rule);
}

proof fn inferred_set_empty_goes_on(
    env: SEnv,
    s0: SBindings,
    name: Seq<char>,
    args: Seq<SExpr>,
    of: Arguments,
)
    requires
        arguments_go_on(of, args.len()),
    ensures
        goes_on(s0, infer::set_empty_rule(env, s0, name, args, of).0),
{
    reveal(infer::set_empty_rule);
}

proof fn inferred_set_access_goes_on(
    env: SEnv,
    s0: SBindings,
    name: Seq<char>,
    args: Seq<SExpr>,
    of: Arguments,
)
    requires
        arguments_go_on(of, args.len()),
    ensures
        goes_on(s0, infer::set_access_rule(env, s0, name, args, of).0),
{
    reveal(infer::set_access_rule);
}

proof fn inferred_set_count_goes_on(
    env: SEnv,
    s0: SBindings,
    name: Seq<char>,
    args: Seq<SExpr>,
    of: Arguments,
)
    requires
        arguments_go_on(of, args.len()),
    ensures
        goes_on(s0, infer::set_count_rule(env, s0, name, args, of).0),
{
    reveal(infer::set_count_rule);
}

proof fn inferred_get_goes_on(
    env: SEnv,
    s0: SBindings,
    name: Seq<char>,
    args: Seq<SExpr>,
    of: Arguments,
)
    requires
        arguments_go_on(of, args.len()),
    ensures
        goes_on(s0, infer::get_rule(env, s0, name, args, of).0),
{
    reveal(infer::get_rule);
}

proof fn inferred_assoc_goes_on(
    env: SEnv,
    s0: SBindings,
    name: Seq<char>,
    args: Seq<SExpr>,
    of: Arguments,
)
    requires
        arguments_go_on(of, args.len()),
    ensures
        goes_on(s0, infer::assoc_rule(env, s0, name, args, of).0),
{
    reveal(infer::assoc_rule);
}

proof fn inferred_count_goes_on(
    env: SEnv,
    s0: SBindings,
    name: Seq<char>,
    args: Seq<SExpr>,
    of: Arguments,
)
    requires
        arguments_go_on(of, args.len()),
    ensures
        goes_on(s0, infer::count_rule(env, s0, name, args, of).0),
{
    reveal(infer::count_rule);
}

proof fn inferred_equal_goes_on(
    env: SEnv,
    s0: SBindings,
    name: Seq<char>,
    args: Seq<SExpr>,
    of: Arguments,
)
    requires
        arguments_go_on(of, args.len()),
    ensures
        goes_on(s0, infer::equal_rule(env, s0, name, args, of).0),
{
    reveal(infer::equal_rule);
}

proof fn inferred_not_goes_on(
    env: SEnv,
    s0: SBindings,
    name: Seq<char>,
    args: Seq<SExpr>,
    of: Arguments,
)
    requires
        arguments_go_on(of, args.len()),
    ensures
        goes_on(s0, infer::not_rule(env, s0, name, args, of).0),
{
    reveal(infer::not_rule);
}

proof fn inferred_host_input_goes_on(
    env: SEnv,
    s0: SBindings,
    name: Seq<char>,
    args: Seq<SExpr>,
    of: Arguments,
)
    requires
        arguments_go_on(of, args.len()),
    ensures
        goes_on(s0, infer::host_input_rule(env, s0, name, args, of).0),
{
    reveal(infer::host_input_rule);
}

proof fn inferred_type_evidence_goes_on(
    env: SEnv,
    s0: SBindings,
    name: Seq<char>,
    args: Seq<SExpr>,
    of: Arguments,
)
    requires
        arguments_go_on(of, args.len()),
    ensures
        goes_on(s0, infer::type_evidence_rule(env, s0, name, args, of).0),
{
    reveal(infer::type_evidence_rule);
}

proof fn inferred_type_schema_goes_on(
    env: SEnv,
    s0: SBindings,
    name: Seq<char>,
    args: Seq<SExpr>,
    of: Arguments,
)
    requires
        arguments_go_on(of, args.len()),
    ensures
        goes_on(s0, infer::type_schema_rule(env, s0, name, args, of).0),
{
    reveal(infer::type_schema_rule);
}

proof fn inferred_type_id_goes_on(
    env: SEnv,
    s0: SBindings,
    name: Seq<char>,
    args: Seq<SExpr>,
    of: Arguments,
)
    requires
        arguments_go_on(of, args.len()),
    ensures
        goes_on(s0, infer::type_id_rule(env, s0, name, args, of).0),
{
    reveal(infer::type_id_rule);
}

proof fn inferred_value_type_evidence_goes_on(
    env: SEnv,
    s0: SBindings,
    name: Seq<char>,
    args: Seq<SExpr>,
    of: Arguments,
)
    requires
        arguments_go_on(of, args.len()),
    ensures
        goes_on(s0, infer::value_type_evidence_rule(env, s0, name, args, of).0),
{
    reveal(infer::value_type_evidence_rule);
}

proof fn inferred_or_goes_on(
    env: SEnv,
    s0: SBindings,
    name: Seq<char>,
    args: Seq<SExpr>,
    of: Arguments,
)
    requires
        arguments_go_on(of, args.len()),
    ensures
        goes_on(s0, infer::or_rule(env, s0, name, args, of).0),
{
    reveal(infer::or_rule);
}

proof fn inferred_canonical_goes_on(
    env: SEnv,
    s0: SBindings,
    name: Seq<char>,
    args: Seq<SExpr>,
    of: Arguments,
)
    requires
        arguments_go_on(of, args.len()),
    ensures
        goes_on(s0, infer::canonical_rule(env, s0, name, args, of).0),
{
    reveal(infer::canonical_rule);
}

proof fn inferred_function_name_goes_on(
    env: SEnv,
    s0: SBindings,
    name: Seq<char>,
    args: Seq<SExpr>,
    of: Arguments,
)
    requires
        arguments_go_on(of, args.len()),
    ensures
        goes_on(s0, infer::function_name_rule(env, s0, name, args, of).0),
{
    reveal(infer::function_name_rule);
}

proof fn inferred_conforms_goes_on(
    env: SEnv,
    s0: SBindings,
    name: Seq<char>,
    args: Seq<SExpr>,
    of: Arguments,
)
    requires
        arguments_go_on(of, args.len()),
    ensures
        goes_on(s0, infer::conforms_rule(env, s0, name, args, of).0),
{
    reveal(infer::conforms_rule);
}

proof fn inferred_fail_goes_on(
    env: SEnv,
    s0: SBindings,
    name: Seq<char>,
    args: Seq<SExpr>,
    of: Arguments,
)
    requires
        arguments_go_on(of, args.len()),
    ensures
        goes_on(s0, infer::fail_rule(env, s0, name, args, of).0),
{
    reveal(infer::fail_rule);
}

proof fn inferred_pack_goes_on(
    env: SEnv,
    s0: SBindings,
    name: Seq<char>,
    args: Seq<SExpr>,
    of: Arguments,
)
    requires
        arguments_go_on(of, args.len()),
    ensures
        goes_on(s0, infer::pack_rule(env, s0, name, args, of).0),
{
    reveal(infer::pack_rule);
}

proof fn inferred_packed_empty_goes_on(
    env: SEnv,
    s0: SBindings,
    name: Seq<char>,
    args: Seq<SExpr>,
    of: Arguments,
)
    requires
        arguments_go_on(of, args.len()),
    ensures
        goes_on(s0, infer::packed_empty_rule(env, s0, name, args, of).0),
{
    reveal(infer::packed_empty_rule);
}

proof fn inferred_packed_record_goes_on(
    env: SEnv,
    s0: SBindings,
    name: Seq<char>,
    args: Seq<SExpr>,
    of: Arguments,
)
    requires
        arguments_go_on(of, args.len()),
    ensures
        goes_on(s0, infer::packed_record_rule(env, s0, name, args, of).0),
{
    reveal(infer::packed_record_rule);
}

proof fn inferred_descriptors_goes_on(
    env: SEnv,
    s0: SBindings,
    name: Seq<char>,
    args: Seq<SExpr>,
    of: Arguments,
)
    requires
        arguments_go_on(of, args.len()),
    ensures
        goes_on(s0, infer::descriptors_rule(env, s0, name, args, of).0),
{
    reveal(infer::descriptors_rule);
}

proof fn inferred_descriptor_table_goes_on(
    env: SEnv,
    s0: SBindings,
    name: Seq<char>,
    args: Seq<SExpr>,
    of: Arguments,
)
    requires
        arguments_go_on(of, args.len()),
    ensures
        goes_on(s0, infer::descriptor_table_rule(env, s0, name, args, of).0),
{
    reveal(infer::descriptor_table_rule);
}

proof fn inferred_read_goes_on(
    env: SEnv,
    s0: SBindings,
    name: Seq<char>,
    args: Seq<SExpr>,
    of: Arguments,
)
    requires
        arguments_go_on(of, args.len()),
    ensures
        goes_on(s0, infer::read_rule(env, s0, name, args, of).0),
{
    reveal(infer::read_rule);
}

proof fn inferred_read_json_goes_on(
    env: SEnv,
    s0: SBindings,
    name: Seq<char>,
    args: Seq<SExpr>,
    of: Arguments,
)
    requires
        arguments_go_on(of, args.len()),
    ensures
        goes_on(s0, infer::read_json_rule(env, s0, name, args, of).0),
{
    reveal(infer::read_json_rule);
}

proof fn inferred_artifact_goes_on(
    env: SEnv,
    s0: SBindings,
    name: Seq<char>,
    args: Seq<SExpr>,
    of: Arguments,
)
    requires
        arguments_go_on(of, args.len()),
    ensures
        goes_on(s0, infer::artifact_rule(env, s0, name, args, of).0),
{
    reveal(infer::artifact_rule);
}

proof fn inferred_strip_margin_goes_on(
    env: SEnv,
    s0: SBindings,
    name: Seq<char>,
    args: Seq<SExpr>,
    of: Arguments,
)
    requires
        arguments_go_on(of, args.len()),
    ensures
        goes_on(s0, infer::strip_margin_rule(env, s0, name, args, of).0),
{
    reveal(infer::strip_margin_rule);
}

proof fn inferred_replace_goes_on(
    env: SEnv,
    s0: SBindings,
    name: Seq<char>,
    args: Seq<SExpr>,
    of: Arguments,
)
    requires
        arguments_go_on(of, args.len()),
    ensures
        goes_on(s0, infer::replace_rule(env, s0, name, args, of).0),
{
    reveal(infer::replace_rule);
}

proof fn inferred_concat_goes_on(
    env: SEnv,
    s0: SBindings,
    name: Seq<char>,
    args: Seq<SExpr>,
    of: Arguments,
)
    requires
        arguments_go_on(of, args.len()),
    ensures
        goes_on(s0, infer::concat_rule(env, s0, name, args, of).0),
{
    reveal(infer::concat_rule);
}

proof fn inferred_remove_at_goes_on(
    env: SEnv,
    s0: SBindings,
    name: Seq<char>,
    args: Seq<SExpr>,
    of: Arguments,
)
    requires
        arguments_go_on(of, args.len()),
    ensures
        goes_on(s0, infer::remove_at_rule(env, s0, name, args, of).0),
{
    reveal(infer::remove_at_rule);
}

proof fn inferred_keys_goes_on(
    env: SEnv,
    s0: SBindings,
    name: Seq<char>,
    args: Seq<SExpr>,
    of: Arguments,
)
    requires
        arguments_go_on(of, args.len()),
    ensures
        goes_on(s0, infer::keys_rule(env, s0, name, args, of).0),
{
    reveal(infer::keys_rule);
}

proof fn inferred_first_goes_on(
    env: SEnv,
    s0: SBindings,
    name: Seq<char>,
    args: Seq<SExpr>,
    of: Arguments,
)
    requires
        arguments_go_on(of, args.len()),
    ensures
        goes_on(s0, infer::first_rule(env, s0, name, args, of).0),
{
    reveal(infer::first_rule);
}

proof fn inferred_over_list_goes_on(
    env: SEnv,
    s0: SBindings,
    name: Seq<char>,
    args: Seq<SExpr>,
    of: Arguments,
)
    requires
        arguments_go_on(of, args.len()),
    ensures
        goes_on(s0, infer::over_list_rule(env, s0, name, args, of).0),
{
    reveal(infer::over_list_rule);
}

proof fn inferred_indexed_map_goes_on(
    env: SEnv,
    s0: SBindings,
    name: Seq<char>,
    args: Seq<SExpr>,
    of: Arguments,
)
    requires
        arguments_go_on(of, args.len()),
    ensures
        goes_on(s0, infer::indexed_map_rule(env, s0, name, args, of).0),
{
    reveal(infer::indexed_map_rule);
}

proof fn inferred_fold_goes_on(
    env: SEnv,
    s0: SBindings,
    name: Seq<char>,
    args: Seq<SExpr>,
    of: Arguments,
)
    requires
        arguments_go_on(of, args.len()),
    ensures
        goes_on(s0, infer::fold_rule(env, s0, name, args, of).0),
{
    reveal(infer::fold_rule);
}

proof fn inferred_builtin_goes_on(
    env: SEnv,
    table: SBindings,
    name: Seq<char>,
    args: Seq<SExpr>,
    of: Arguments,
)
    requires
        arguments_go_on(of, args.len()),
    ensures
        goes_on(table, infer::builtin_rule(env, table, name, args, of).0),
{
    reveal(infer::builtin_rule);
    inferred_value_type_id_goes_on(env, table, name, args, of);
    inferred_map_empty_goes_on(env, table, name, args, of);
    inferred_map_access_goes_on(env, table, name, args, of);
    inferred_map_union_goes_on(env, table, name, args, of);
    inferred_map_count_goes_on(env, table, name, args, of);
    inferred_set_empty_goes_on(env, table, name, args, of);
    inferred_set_access_goes_on(env, table, name, args, of);
    inferred_set_count_goes_on(env, table, name, args, of);
    inferred_get_goes_on(env, table, name, args, of);
    inferred_assoc_goes_on(env, table, name, args, of);
    inferred_count_goes_on(env, table, name, args, of);
    inferred_equal_goes_on(env, table, name, args, of);
    inferred_not_goes_on(env, table, name, args, of);
    inferred_host_input_goes_on(env, table, name, args, of);
    inferred_type_evidence_goes_on(env, table, name, args, of);
    inferred_type_schema_goes_on(env, table, name, args, of);
    inferred_type_id_goes_on(env, table, name, args, of);
    inferred_value_type_evidence_goes_on(env, table, name, args, of);
    inferred_or_goes_on(env, table, name, args, of);
    inferred_canonical_goes_on(env, table, name, args, of);
    inferred_function_name_goes_on(env, table, name, args, of);
    inferred_conforms_goes_on(env, table, name, args, of);
    inferred_fail_goes_on(env, table, name, args, of);
    inferred_pack_goes_on(env, table, name, args, of);
    inferred_packed_empty_goes_on(env, table, name, args, of);
    inferred_packed_record_goes_on(env, table, name, args, of);
    inferred_descriptors_goes_on(env, table, name, args, of);
    inferred_descriptor_table_goes_on(env, table, name, args, of);
    inferred_read_goes_on(env, table, name, args, of);
    inferred_read_json_goes_on(env, table, name, args, of);
    inferred_artifact_goes_on(env, table, name, args, of);
    inferred_strip_margin_goes_on(env, table, name, args, of);
    inferred_replace_goes_on(env, table, name, args, of);
    inferred_concat_goes_on(env, table, name, args, of);
    inferred_remove_at_goes_on(env, table, name, args, of);
    inferred_keys_goes_on(env, table, name, args, of);
    inferred_first_goes_on(env, table, name, args, of);
    inferred_over_list_goes_on(env, table, name, args, of);
    inferred_indexed_map_goes_on(env, table, name, args, of);
    inferred_fold_goes_on(env, table, name, args, of);
}

/// Finding the type of an expression gives out no identity twice.
pub proof fn inference_goes_on(env: SEnv, table: SBindings, locals: SLocals, e: SExpr)
    ensures
        goes_on(table, inferred(env, table, locals, e).0),
    decreases e, 2nat,
{
    reveal_with_fuel(inferred, 4);
    match e {
        SExpr::Vector(items) => {
            if items.len() > 0 {
                let (after, first) = inferred(env, table, locals, items[0]);
                inference_goes_on(env, table, locals, items[0]);
                if first is Ok {
                    inferred_like_goes_on(env, after, locals, items.drop_first(), first->Ok_0);
                }
            }
        },
        SExpr::Fields(fields) => {
            inferred_fields_go_on(env, table, locals, fields, Seq::empty());
        },
        SExpr::If(condition, yes, no) => {
            inference_goes_on(env, table, locals, *condition);
            let s1 = inferred(env, table, locals, *condition).0;
            inference_goes_on(env, s1, locals, *yes);
            let s2 = inferred(env, s1, locals, *yes).0;
            inference_goes_on(env, s2, locals, *no);
        },
        SExpr::Construct(_, _, payload) => {
            inference_goes_on(env, table, locals, *payload);
        },
        SExpr::Match(value, arms) => {
            inference_goes_on(env, table, locals, *value);
            let (s1, r) = inferred(env, table, locals, *value);
            if r is Ok {
                inferred_arms_go_on(env, s1, locals, r->Ok_0, arms, Seq::empty(), None);
            }
        },
        SExpr::Call(callee, args) => match *callee {
            SExpr::Name(name) => {
                inferred_named_call_goes_on(env, table, locals, name, args);
            },
            _ => {
                inference_goes_on(env, table, locals, *callee);
                let (after, r) = inferred(env, table, locals, *callee);
                inferred_all_go_on(env, after, locals, args);
            },
        },
        _ => {},
    }
}

proof fn inferred_named_call_goes_on(
    env: SEnv,
    table: SBindings,
    locals: SLocals,
    name: Seq<char>,
    args: Seq<SExpr>,
)
    ensures
        goes_on(table, named_call(env, table, locals, name, args).0),
    decreases args, 3nat,
{
    inferred_all_go_on(env, table, locals, args);
    let of = argument_types(env, locals, args);
    assert forall|s: SBindings, i: int| 0 <= i < args.len() implies goes_on(
        s,
        (#[trigger] of(s, i)).0,
    ) by {
        inference_goes_on(env, s, locals, args[i]);
    }
    let after = inferred_all(env, table, locals, args).0;
    inferred_builtin_goes_on(env, after, name, args, of);
    inferred_builtin_goes_on(env, table, name, args, of);
}

proof fn inferred_all_go_on(env: SEnv, table: SBindings, locals: SLocals, items: Seq<SExpr>)
    ensures
        goes_on(table, inferred_all(env, table, locals, items).0),
    decreases items, 0nat,
{
    if items.len() > 0 {
        inference_goes_on(env, table, locals, items[0]);
        let after = inferred(env, table, locals, items[0]).0;
        inferred_all_go_on(env, after, locals, items.drop_first());
    }
}

proof fn inferred_like_goes_on(
    env: SEnv,
    table: SBindings,
    locals: SLocals,
    items: Seq<SExpr>,
    item: SType,
)
    ensures
        goes_on(table, inferred_like(env, table, locals, items, item).0),
    decreases items, 0nat,
{
    if items.len() > 0 {
        inference_goes_on(env, table, locals, items[0]);
        let after = inferred(env, table, locals, items[0]).0;
        inferred_like_goes_on(env, after, locals, items.drop_first(), item);
    }
}

proof fn inferred_fields_go_on(
    env: SEnv,
    table: SBindings,
    locals: SLocals,
    items: Seq<(Seq<char>, SExpr)>,
    done: Seq<(Seq<char>, SType)>,
)
    ensures
        goes_on(table, inferred_fields(env, table, locals, items, done).0),
    decreases items, 0nat,
{
    if items.len() > 0 {
        inference_goes_on(env, table, locals, items[0].1);
        let (after, r) = inferred(env, table, locals, items[0].1);
        if r is Ok {
            let next = with_field(done, items[0].0, r->Ok_0);
            inferred_fields_go_on(env, after, locals, items.drop_first(), next);
        }
    }
}

proof fn inferred_arms_go_on(
    env: SEnv,
    table: SBindings,
    locals: SLocals,
    owner: SType,
    arms: Seq<SMatchArm>,
    seen: Seq<SConstructorId>,
    result: Option<SType>,
)
    ensures
        goes_on(table, inferred_arms(env, table, locals, owner, arms, seen, result).0),
    decreases arms, 0nat,
{
    if arms.len() > 0 {
        match constructor_of(env, owner, arms[0].constructor) {
            Ok(c) => match with_local(locals, arms[0].binding, c.payload) {
                Ok(inner) => {
                    inference_goes_on(env, table, inner, *arms[0].body);
                    let (after, r) = inferred(env, table, inner, *arms[0].body);
                    if r is Ok {
                        let rest = arms.drop_first();
                        let more = seen.push(c.id);
                        inferred_arms_go_on(env, after, locals, owner, rest, more, Some(r->Ok_0));
                        inferred_arms_go_on(env, after, locals, owner, rest, more, result);
                    }
                },
                Err(_) => {},
            },
            Err(_) => {},
        }
    }
}

/// Specializing an expression gives out no identity twice.
pub proof fn specialization_goes_on(
    env: SEnv,
    table: SBindings,
    e: SChecked,
    expected: SType,
    outer: SSubst,
)
    ensures
        goes_on(table, specialized(env, table, e, expected, outer).0),
    decreases e, 1nat,
{
    let subst = specialization(env, e.ty, expected, outer);
    specialized_kind_goes_on(env, table, e, apply(e.ty, subst), subst);
}

proof fn specialized_kind_goes_on(
    env: SEnv,
    table: SBindings,
    e: SChecked,
    resolved: SType,
    subst: SSubst,
)
    ensures
        goes_on(table, specialized_kind(env, table, e, resolved, subst).0),
    decreases e, 0nat,
{
    match e.kind {
        SKind::BindingRef(id) => {
            let needed = resolved_requirements(env, table, id, resolved);
            equality_goes_on(env, table, needed, subst);
        },
        SKind::Function(f) => {
            equality_goes_on(env, table, as_vars(f.equality_params), subst);
            let s1 = required_all(env, table, as_vars(f.equality_params), subst).0;
            specialized_bindings_go_on(env, s1, f.body.bindings, subst);
            let s2 = specialized_bindings(env, s1, f.body.bindings, subst).0;
            specialized_each_goes_on(env, s2, f.body.expressions, subst);
        },
        SKind::Call(callee, args) => {
            let signature = apply(callee.ty, subst);
            specialization_goes_on(env, table, *callee, signature, subst);
            let s1 = specialized(env, table, *callee, signature, subst).0;
            match signature {
                SType::Function(params, _) => {
                    specialized_args_go_on(env, s1, args, params, subst);
                },
                _ => {},
            }
        },
        SKind::Vector(items) => {
            specialized_items_go_on(env, table, items, resolved, 0, subst);
        },
        SKind::Fields(fields) => {
            specialized_fields_go_on(env, table, fields, resolved, subst);
        },
        SKind::If(condition, yes, no) => {
            specialization_goes_on(env, table, *condition, SType::Bool, subst);
            let s1 = specialized(env, table, *condition, SType::Bool, subst).0;
            specialization_goes_on(env, s1, *yes, resolved, subst);
            let s2 = specialized(env, s1, *yes, resolved, subst).0;
            specialization_goes_on(env, s2, *no, resolved, subst);
        },
        SKind::Ascribe(_, value) => {
            specialization_goes_on(env, table, *value, resolved, subst);
        },
        SKind::Construct(_, _, payload) => {
            specialization_goes_on(env, table, *payload, payload.ty, subst);
        },
        SKind::Match(value, arms) => {
            specialization_goes_on(env, table, *value, value.ty, subst);
            let s1 = specialized(env, table, *value, value.ty, subst).0;
            specialized_arms_go_on(env, s1, arms, resolved, subst);
        },
        _ => {},
    }
}

proof fn specialized_bindings_go_on(
    env: SEnv,
    table: SBindings,
    items: Seq<SBinding>,
    subst: SSubst,
)
    ensures
        goes_on(table, specialized_bindings(env, table, items, subst).0),
    decreases items, 0nat,
{
    if items.len() > 0 {
        let e = items[0].initializer;
        let expected = items[0].ty;
        specialization_goes_on(env, table, e, expected, subst);
        let after = specialized(env, table, e, expected, subst).0;
        specialized_bindings_go_on(env, after, items.drop_first(), subst);
    }
}

proof fn specialized_each_goes_on(
    env: SEnv,
    table: SBindings,
    items: Seq<SChecked>,
    subst: SSubst,
)
    ensures
        goes_on(table, specialized_each(env, table, items, subst).0),
    decreases items, 0nat,
{
    if items.len() > 0 {
        let e = items[0];
        let expected = items[0].ty;
        specialization_goes_on(env, table, e, expected, subst);
        let after = specialized(env, table, e, expected, subst).0;
        specialized_each_goes_on(env, after, items.drop_first(), subst);
    }
}

proof fn specialized_args_go_on(
    env: SEnv,
    table: SBindings,
    items: Seq<SChecked>,
    params: Seq<SType>,
    subst: SSubst,
)
    ensures
        goes_on(table, specialized_args(env, table, items, params, subst).0),
    decreases items, 0nat,
{
    if items.len() > 0 && params.len() > 0 {
        let e = items[0];
        let expected = params[0];
        specialization_goes_on(env, table, e, expected, subst);
        let after = specialized(env, table, e, expected, subst).0;
        specialized_args_go_on(env, after, items.drop_first(), params.drop_first(), subst);
    }
}

proof fn specialized_items_go_on(
    env: SEnv,
    table: SBindings,
    items: Seq<SChecked>,
    resolved: SType,
    i: nat,
    subst: SSubst,
)
    ensures
        goes_on(table, specialized_items(env, table, items, resolved, i, subst).0),
    decreases items, 0nat,
{
    if items.len() > 0 {
        let e = items[0];
        let expected = item_expected(resolved, items[0].ty, i);
        specialization_goes_on(env, table, e, expected, subst);
        let after = specialized(env, table, e, expected, subst).0;
        specialized_items_go_on(env, after, items.drop_first(), resolved, i + 1, subst);
    }
}

proof fn specialized_fields_go_on(
    env: SEnv,
    table: SBindings,
    items: Seq<(Seq<char>, SChecked)>,
    resolved: SType,
    subst: SSubst,
)
    ensures
        goes_on(table, specialized_fields(env, table, items, resolved, subst).0),
    decreases items, 0nat,
{
    if items.len() > 0 {
        let e = items[0].1;
        let expected = field_expected(resolved, items[0].1.ty, items[0].0);
        specialization_goes_on(env, table, e, expected, subst);
        let after = specialized(env, table, e, expected, subst).0;
        specialized_fields_go_on(env, after, items.drop_first(), resolved, subst);
    }
}

proof fn specialized_arms_go_on(
    env: SEnv,
    table: SBindings,
    items: Seq<SArm>,
    resolved: SType,
    subst: SSubst,
)
    ensures
        goes_on(table, specialized_arms(env, table, items, resolved, subst).0),
    decreases items, 0nat,
{
    if items.len() > 0 {
        let e = *items[0].body;
        let expected = resolved;
        specialization_goes_on(env, table, e, expected, subst);
        let after = specialized(env, table, e, expected, subst).0;
        specialized_arms_go_on(env, after, items.drop_first(), resolved, subst);
    }
}

proof fn requirements_go_on(env: SEnv, table: SBindings, b: SBinding)
    ensures
        goes_on(table, binding_requirements(env, table, b).0),
{
    reveal(own_obligations);
    reveal(binding_requirements);
    let start = table.with_obligations(Set::empty());
    specialization_goes_on(env, start, b.initializer, b.ty, Map::empty());
}

proof fn requirement_pass_goes_on(
    env: SEnv,
    table: SBindings,
    items: Seq<SBinding>,
    changed: bool,
)
    ensures
        goes_on(table, requirement_pass(env, table, items, changed).0),
    decreases items.len(),
{
    if items.len() > 0 {
        requirements_go_on(env, table, items[0]);
        let (after, r) = binding_requirements(env, table, items[0]);
        if r is Ok {
            let rest = items.drop_first();
            requirement_pass_goes_on(env, after, rest, changed);
            requirement_pass_goes_on(env, after.set_equality(items[0].id, r->Ok_0), rest, true);
        }
    }
}

proof fn settled_requirements_go_on(
    env: SEnv,
    table: SBindings,
    items: Seq<SBinding>,
    fuel: nat,
)
    ensures
        goes_on(table, settled_requirements(env, table, items, fuel).0),
    decreases fuel,
{
    requirement_pass_goes_on(env, table, items, false);
    if fuel > 0 {
        let after = requirement_pass(env, table, items, false).0;
        settled_requirements_go_on(env, after, items, (fuel - 1) as nat);
    }
}

proof fn finalizing_goes_on(env: SEnv, table: SBindings, items: Seq<SBinding>)
    ensures
        goes_on(table, finalized(env, table, items).0),
{
    reveal(finalized);
    settled_requirements_go_on(env, table, items, u64::MAX as nat);
}

/// Whether compiling the parts of an expression only goes on.
pub open spec fn parts_go_on(of: Maker, n: nat) -> bool {
    forall|s: SBindings, i: int, t: Option<SType>|
        0 <= i < n ==> goes_on(s, (#[trigger] of(s, i, t)).0)
}

/// The same for parts that have scopes of their own.
pub open spec fn scoped_parts_go_on(of: ScopedMaker, n: nat) -> bool {
    forall|s: SBindings, i: int, scopes: Seq<SScope>, t: Option<SType>|
        0 <= i < n ==> goes_on(s, (#[trigger] of(s, i, scopes, t)).0)
}

/// The same for the items of a block.
pub open spec fn items_go_on(of: ItemMaker, items: Seq<SItem>) -> bool {
    forall|s: SBindings, i: int, scopes: Seq<SScope>, t: Option<SType>, id: Option<BindingId>|
        0 <= i < items.len() && !(items[i] is Invalid) ==> goes_on(
            s,
            (#[trigger] of(s, i, scopes, t, id)).0,
        )
}

pub open spec fn body_goes_on(body: BodyMaker) -> bool {
    forall|s: SBindings, scopes: Seq<SScope>, t: SType|
        goes_on(s, (#[trigger] body(s, scopes, t)).0)
}

/// Whether positions are those of bindings in a block.
pub open spec fn lets_in(items: Seq<SItem>, lets: SLets) -> bool {
    forall|k: int|
        0 <= k < lets.len() ==> 0 <= (#[trigger] lets[k]).0 < items.len() && items[lets[k].0] is Let
}

proof fn finishing_goes_on(
    env: SEnv,
    table: SBindings,
    r: Result<SChecked, SError>,
    expected: Option<SType>,
)
    ensures
        goes_on(table, finished(env, table, r, expected).0),
{
    reveal(finished);
    match r {
        Ok(value) => {
            let target = match expected {
                Some(t) => t,
                None => value.ty,
            };
            specialization_goes_on(env, table, value, target, Map::empty());
        },
        Err(_) => {},
    }
}

proof fn all_made_go_on(of: Maker, table: SBindings, n: nat, done: Seq<SChecked>)
    requires
        parts_go_on(of, n),
    ensures
        goes_on(table, all_made(of, table, n, done).0),
    decreases n - done.len(),
{
    if done.len() < n {
        let (after, r) = of(table, done.len() as int, None);
        if r is Ok {
            all_made_go_on(of, after, n, done.push(r->Ok_0));
        }
    }
}

proof fn items_made_go_on(
    env: SEnv,
    of: Maker,
    table: SBindings,
    n: nat,
    wanted: Option<SType>,
    current: Option<SType>,
    subst: SSubst,
    done: Seq<SChecked>,
)
    requires
        parts_go_on(of, n),
    ensures
        goes_on(table, items_made(env, of, table, n, wanted, current, subst, done).0),
    decreases n - done.len(),
{
    if done.len() < n {
        match wanted {
            Some(item) => {
                let target = apply(item, subst);
                let (after, r) = of(table, done.len() as int, Some(target));
                if r is Ok {
                    let x = r->Ok_0;
                    let s = fit_static(env, x.ty, target, subst).0;
                    let next = Some(apply(item, s));
                    items_made_go_on(env, of, after, n, wanted, next, s, done.push(x));
                }
            },
            None => {
                let (after, r) = of(table, done.len() as int, None);
                if r is Ok {
                    let x = r->Ok_0;
                    let next = if current is None {
                        Some(x.ty)
                    } else {
                        current
                    };
                    items_made_go_on(env, of, after, n, wanted, next, subst, done.push(x));
                }
            },
        }
    }
}

proof fn vector_goes_on(
    env: SEnv,
    table: SBindings,
    n: nat,
    expected: Option<SType>,
    of: Maker,
)
    requires
        parts_go_on(of, n),
    ensures
        goes_on(table, vector_rule(env, table, n, expected, of).0),
{
    reveal(vector_rule);
    all_made_go_on(of, table, n, Seq::empty());
    let wanted = list_item(expected);
    items_made_go_on(env, of, table, n, wanted, wanted, Map::empty(), Seq::empty());
}

proof fn record_goes_on(
    table: SBindings,
    fields: Seq<(Seq<char>, SExpr)>,
    expected: Option<SType>,
    of: Maker,
    done: Seq<(Seq<char>, SChecked)>,
    types: Seq<(Seq<char>, SType)>,
)
    requires
        parts_go_on(of, fields.len()),
    ensures
        goes_on(table, record_rule(table, fields, expected, of, done, types).0),
    decreases fields.len() - done.len(),
{
    if done.len() < fields.len() {
        let name = fields[done.len() as int].0;
        let (after, r) = of(table, done.len() as int, field_wanted(expected, name));
        if r is Ok {
            let x = r->Ok_0;
            let next = with_field(types, name, x.ty);
            record_goes_on(after, fields, expected, of, done.push((name, x)), next);
        }
    }
}

proof fn arms_go_on(
    env: SEnv,
    table: SBindings,
    scopes: Seq<SScope>,
    owner: SType,
    arms: Seq<SMatchArm>,
    of: ScopedMaker,
    seen: Seq<SConstructorId>,
    result: Option<SType>,
    done: Seq<SArm>,
)
    requires
        scoped_parts_go_on(of, arms.len()),
    ensures
        goes_on(table, arms_rule(env, table, scopes, owner, arms, of, seen, result, done).0),
    decreases arms.len() - done.len(),
{
    reveal(declared);
    if done.len() < arms.len() {
        let arm = arms[done.len() as int];
        match constructor_of(env, owner, arm.constructor) {
            Ok(c) => {
                let id = BindingId(table.next);
                let (s1, r) = declared(
                    env,
                    table.allocate(arm.binding, Some(c.payload)),
                    scopes,
                    Seq::empty(),
                    arm.binding,
                    plain_candidate(id, c.payload),
                );
                if r is Ok {
                    let (s2, made) = of(s1, done.len() as int, scopes.push(r->Ok_0), result);
                    if made is Ok {
                        let body = made->Ok_0;
                        match arm_result(env, result, body.ty) {
                            Ok(t) => {
                                let next = SArm {
                                    constructor: c.id,
                                    binding: SParam { id, name: arm.binding, ty: c.payload },
                                    body: Box::new(body),
                                };
                                arms_go_on(
                                    env,
                                    s2,
                                    scopes,
                                    owner,
                                    arms,
                                    of,
                                    seen.push(c.id),
                                    Some(t),
                                    done.push(next),
                                );
                            },
                            Err(_) => {},
                        }
                    }
                }
            },
            Err(_) => {},
        }
    }
}

proof fn value_args_go_on(
    env: SEnv,
    of: Maker,
    table: SBindings,
    params: Seq<SType>,
    subst: SSubst,
    done: Seq<SChecked>,
)
    requires
        parts_go_on(of, params.len()),
    ensures
        goes_on(table, value_args(env, of, table, params, subst, done).0),
    decreases params.len() - done.len(),
{
    if done.len() < params.len() {
        let target = apply(params[done.len() as int], subst);
        let (after, r) = of(table, done.len() as int, Some(target));
        if r is Ok {
            let s = fit_static(env, r->Ok_0.ty, target, subst).0;
            value_args_go_on(env, of, after, params, s, done.push(r->Ok_0));
        }
    }
}

proof fn value_call_goes_on(
    env: SEnv,
    table: SBindings,
    callee: SChecked,
    n: nat,
    expected: Option<SType>,
    of: Maker,
)
    requires
        parts_go_on(of, n),
    ensures
        goes_on(table, value_call_rule(env, table, callee, n, expected, of).0),
{
    reveal(value_call_rule);
    match callee.ty {
        SType::Function(params, _) => {
            if params.len() == n {
                value_args_go_on(env, of, table, params, Map::empty(), Seq::empty());
            }
        },
        _ => {},
    }
}

proof fn call_args_go_on(
    env: SEnv,
    of: Maker,
    table: SBindings,
    params: Seq<SType>,
    bindable: Set<Seq<char>>,
    subst: SSubst,
    done: Seq<SChecked>,
)
    requires
        parts_go_on(of, params.len()),
    ensures
        goes_on(table, call_args(env, of, table, params, bindable, subst, done).0),
    decreases params.len() - done.len(),
{
    if done.len() < params.len() {
        let target = apply(params[done.len() as int], subst);
        let (after, r) = of(table, done.len() as int, Some(target));
        if r is Ok {
            let s = fit_binding(env, r->Ok_0.ty, target, subst, bindable).0;
            call_args_go_on(env, of, after, params, bindable, s, done.push(r->Ok_0));
        }
    }
}

proof fn args_specialized_go_on(
    env: SEnv,
    table: SBindings,
    args: Seq<SChecked>,
    params: Seq<SType>,
    subst: SSubst,
    i: nat,
)
    ensures
        goes_on(table, args_specialized(env, table, args, params, subst, i).0),
    decreases args.len() - i,
{
    if i < args.len() {
        let target = apply(params[i as int], subst);
        specialization_goes_on(env, table, args[i as int], target, subst);
        let after = specialized(env, table, args[i as int], target, subst).0;
        args_specialized_go_on(env, after, args, params, subst, i + 1);
    }
}

proof fn candidate_call_goes_on(
    env: SEnv,
    table: SBindings,
    c: SCandidate,
    name: Seq<char>,
    n: nat,
    expected: Option<SType>,
    of: Maker,
)
    requires
        parts_go_on(of, n),
    ensures
        goes_on(table, candidate_call(env, table, c, name, n, expected, of).0),
{
    reveal(candidate_call);
    reveal(constrained_call);
    match instance(c) {
        SType::Function(params, result) => {
            if params.len() == n {
                let vars = instance_vars(c);
                call_args_go_on(env, of, table, params, vars, Map::empty(), Seq::empty());
                let (s1, r) = call_args(env, of, table, params, vars, Map::empty(), Seq::empty());
                if r is Ok {
                    let (args, subst) = r->Ok_0;
                    args_specialized_go_on(env, s1, args, params, subst, 0);
                    let s2 = args_specialized(env, s1, args, params, subst, 0).0;
                    let s = constrained_by(env, apply(*result, subst), expected, subst, vars).0;
                    equality_goes_on(env, s2, instance_requirements(env, s2, c), s);
                }
            }
        },
        _ => {},
    }
}

proof fn candidate_calls_go_on(
    env: SEnv,
    table: SBindings,
    items: Seq<SCandidate>,
    name: Seq<char>,
    n: nat,
    expected: Option<SType>,
    of: Maker,
    i: nat,
    done: Seq<(bool, SChecked)>,
)
    requires
        parts_go_on(of, n),
    ensures
        goes_on(table, candidate_calls(env, table, items, name, n, expected, of, i, done).0),
    decreases items.len() - i,
{
    if i < items.len() {
        let c = items[i as int];
        candidate_call_goes_on(env, table, c, name, n, expected, of);
        let (after, r) = candidate_call(env, table, c, name, n, expected, of);
        let next = match r {
            Ok(x) => done.push((c.generic_binders.len() > 0, x)),
            Err(_) => done,
        };
        candidate_calls_go_on(env, after, items, name, n, expected, of, i + 1, next);
    }
}

proof fn overloaded_call_goes_on(
    env: SEnv,
    table: SBindings,
    name: Seq<char>,
    items: Seq<SCandidate>,
    n: nat,
    expected: Option<SType>,
    of: Maker,
)
    requires
        parts_go_on(of, n),
    ensures
        goes_on(table, overloaded_call(env, table, name, items, n, expected, of).0),
{
    reveal(overloaded_call);
    candidate_call_goes_on(env, table, items[0], name, n, expected, of);
    candidate_calls_go_on(env, table, items, name, n, expected, of, 0, Seq::empty());
}

/// Whether the positions of a vector that stands alone as an argument only go on.
pub open spec fn first_goes_on(args: Seq<SExpr>, parts: Maker) -> bool {
    args.len() > 0 ==> (args[0] matches SExpr::Vector(items) ==> parts_go_on(parts, items.len()))
}

proof fn builtin_call_goes_on(
    env: SEnv,
    table: SBindings,
    scopes: Seq<SScope>,
    name: Seq<char>,
    id: BindingId,
    args: Seq<SExpr>,
    expected: Option<SType>,
    of: Maker,
    parts: Maker,
)
    requires
        parts_go_on(of, args.len()),
        first_goes_on(args, parts),
    ensures
        goes_on(table, builtin_call(env, table, scopes, name, id, args, expected, of, parts).0),
{
    reveal(builtin_call);
    if name == "__map-empty"@ && args.len() == 1 {
        reveal(map_empty_call);
    } else if name == "get"@ {
        reveal(get_call);
    } else if name == "canonical"@ && args.len() != 1 {
    } else if name == "artifact"@ {
        artifact_call_goes_on(env, table, id, args, of, parts);
    } else if name == "str"@ {
        reveal(str_call);
        all_made_go_on(of, table, args.len(), Seq::empty());
    } else if maps_over(name) {
        reveal(collection_call);
    } else if name == "fold"@ {
        reveal(fold_call);
    } else {
        reveal(general_call);
        let locals = scope_locals(scopes, Seq::empty());
        let types = argument_types(env, locals, args);
        assert forall|s: SBindings, i: int| 0 <= i < args.len() implies goes_on(
            s,
            (#[trigger] types(s, i)).0,
        ) by {
            inference_goes_on(env, s, locals, args[i]);
        }
        inferred_builtin_goes_on(env, table, name, args, types);
        let s1 = infer::builtin_rule(env, table, name, args, types).0;
        all_made_go_on(of, s1, args.len(), Seq::empty());
    }
}

proof fn artifact_call_goes_on(
    env: SEnv,
    table: SBindings,
    id: BindingId,
    args: Seq<SExpr>,
    of: Maker,
    parts: Maker,
)
    requires
        parts_go_on(of, args.len()),
        first_goes_on(args, parts),
    ensures
        goes_on(table, artifact_call(env, table, id, args, of, parts).0),
{
    reveal(artifact_call);
    if args.len() == 1 {
        match args[0] {
            SExpr::Vector(items) => {
                let product = Some(SType::Product(Seq::empty()));
                vector_goes_on(env, table, items.len(), product, parts);
                let (s, made) = vector_rule(env, table, items.len(), product, parts);
                finishing_goes_on(env, s, made, None);
            },
            _ => {},
        }
    }
}

proof fn named_call_goes_on(
    env: SEnv,
    table: SBindings,
    scopes: Seq<SScope>,
    name: Seq<char>,
    args: Seq<SExpr>,
    expected: Option<SType>,
    of: Maker,
    parts: Maker,
)
    requires
        parts_go_on(of, args.len()),
        first_goes_on(args, parts),
    ensures
        goes_on(
            table,
            named_call_rule(env, table, scopes, name, args, expected, of, parts).0,
        ),
{
    reveal(named_call_rule);
    let functions = all_visible(env, table, scopes, name).filter(
        |c: SCandidate| c.ty is Function,
    );
    overloaded_call_goes_on(env, table, name, functions, args.len(), expected, of);
    let s1 = overloaded_call(env, table, name, functions, args.len(), expected, of).0;
    match builtin_of(env, name) {
        Some(id) => {
            builtin_call_goes_on(env, table, scopes, name, id, args, expected, of, parts);
            builtin_call_goes_on(env, s1, scopes, name, id, args, expected, of, parts);
        },
        None => {},
    }
}

proof fn params_go_on(
    env: SEnv,
    scopes: Seq<SScope>,
    params: Seq<(Seq<char>, SAuthoredType)>,
    types: Seq<SType>,
    table: SBindings,
    scope: SScope,
    done: Seq<SParam>,
)
    ensures
        goes_on(table, params_declared(env, scopes, params, types, table, scope, done).0),
    decreases params.len() - done.len(),
{
    reveal(declared);
    if done.len() < params.len() {
        let name = params[done.len() as int].0;
        let ty = types[done.len() as int];
        let id = BindingId(table.next);
        let (after, r) = declared(
            env,
            table.allocate(name, Some(ty)),
            scopes,
            scope,
            name,
            plain_candidate(id, ty),
        );
        if r is Ok {
            let next = done.push(SParam { id, name, ty });
            params_go_on(env, scopes, params, types, after, r->Ok_0, next);
        }
    }
}

proof fn function_rule_goes_on(
    env: SEnv,
    table: SBindings,
    scopes: Seq<SScope>,
    name: Option<Seq<char>>,
    f: SFunction,
    expected: Option<SType>,
    id: Option<BindingId>,
    body: BodyMaker,
)
    requires
        body_goes_on(body),
    ensures
        goes_on(table, function_rule(env, table, scopes, name, f, expected, id, body).0),
{
    reveal(function_rule);
    reveal(closed_function);
    let vars = scope_vars(scopes).union(f.type_params.to_set());
    match parameter_types(env, f.params, vars) {
        Ok(params) => {
            let scope = binder_scope(f.type_params);
            params_go_on(env, scopes, f.params, params, table, scope, Seq::empty());
        },
        Err(_) => {},
    }
}

proof fn allocation_goes_on(items: Seq<SItem>, i: nat, table: SBindings, done: SLets)
    requires
        lets_in(items, done),
    ensures
        goes_on(table, allocated(items, i, table, done).0),
        lets_in(items, allocated(items, i, table, done).1),
    decreases items.len() - i,
{
    if i < items.len() {
        match items[i as int] {
            SItem::Let(name, _) => {
                let next = done.push((i as int, BindingId(table.next)));
                allocation_goes_on(items, i + 1, table.allocate(name, None), next);
            },
            _ => {
                allocation_goes_on(items, i + 1, table, done);
            },
        }
    }
}

proof fn functions_go_on(
    env: SEnv,
    outer: Seq<SScope>,
    items: Seq<SItem>,
    lets: SLets,
    k: nat,
    table: SBindings,
    current: SScope,
    pending: SLets,
)
    ensures
        goes_on(
            table,
            functions_declared(env, outer, items, lets, k, table, current, pending).0,
        ),
    decreases lets.len() - k,
{
    reveal(declared);
    if k < lets.len() {
        let (at, id) = lets[k as int];
        match let_value(items[at]) {
            SExpr::Function(f) => match signature(env, scope_vars(outer), f) {
                Ok(ty) => {
                    let candidate = SCandidate {
                        id,
                        ty,
                        generic_binders: f.type_params,
                        contributes_type_vars: false,
                    };
                    let name = let_name(items[at]);
                    let (after, r) = declared(env, table, outer, current, name, candidate);
                    if r is Ok {
                        functions_go_on(env, outer, items, lets, k + 1, after, r->Ok_0, pending);
                    }
                },
                Err(_) => {},
            },
            _ => {
                let more = pending.push((at, id));
                functions_go_on(env, outer, items, lets, k + 1, table, current, more);
            },
        }
    }
}

proof fn strict_pass_goes_on(
    env: SEnv,
    outer: Seq<SScope>,
    items: Seq<SItem>,
    names: Seq<Seq<char>>,
    pending: SLets,
    k: nat,
    table: SBindings,
    current: SScope,
    next: SLets,
)
    ensures
        goes_on(
            table,
            strict_pass(env, outer, items, names, pending, k, table, current, next).0,
        ),
    decreases pending.len() - k,
{
    reveal(declared);
    reveal(strict_type);
    if k < pending.len() {
        let (at, id) = pending[k as int];
        let value = let_value(items[at]);
        inference_goes_on(env, table, scope_locals(outer, current), value);
        let (s1, r) = strict_type(env, table, outer, current, value);
        match r {
            Ok(ty) => {
                let name = let_name(items[at]);
                let c = plain_candidate(id, ty);
                let (s2, scoped) = declared(env, s1, outer, current, name, c);
                if scoped is Ok {
                    let scope = scoped->Ok_0;
                    strict_pass_goes_on(
                        env,
                        outer,
                        items,
                        names,
                        pending,
                        k + 1,
                        s2,
                        scope,
                        next,
                    );
                }
            },
            Err(_) => {
                let more = next.push((at, id));
                strict_pass_goes_on(
                    env,
                    outer,
                    items,
                    names,
                    pending,
                    k + 1,
                    s1,
                    current,
                    more,
                );
            },
        }
    }
}

proof fn strict_rounds_go_on(
    env: SEnv,
    outer: Seq<SScope>,
    items: Seq<SItem>,
    names: Seq<Seq<char>>,
    pending: SLets,
    table: SBindings,
    current: SScope,
)
    ensures
        goes_on(
            table,
            strict_rounds(env, outer, items, names, pending, table, current).0,
        ),
    decreases pending.len(),
{
    if pending.len() > 0 {
        let none: SLets = Seq::empty();
        strict_pass_goes_on(env, outer, items, names, pending, 0, table, current, none);
        let (after, r) = strict_pass(
            env,
            outer,
            items,
            names,
            pending,
            0,
            table,
            current,
            none,
        );
        if r is Ok && r->Ok_0.1.len() < pending.len() {
            let (scope, next) = r->Ok_0;
            strict_rounds_go_on(env, outer, items, names, next, after, scope);
        }
    }
}

proof fn bindings_go_on(
    items: Seq<SItem>,
    lets: SLets,
    scopes: Seq<SScope>,
    current: SScope,
    of: ItemMaker,
    table: SBindings,
    done: Seq<SBinding>,
)
    requires
        items_go_on(of, items),
        lets_in(items, lets),
    ensures
        goes_on(table, bindings_made(items, lets, scopes, current, of, table, done).0),
    decreases lets.len() - done.len(),
{
    if done.len() < lets.len() {
        let (at, id) = lets[done.len() as int];
        let name = let_name(items[at]);
        match declared_type(scope_candidates(current, name), id, 0) {
            Some(ty) => {
                let (after, r) = of(table, at, scopes, Some(ty), Some(id));
                assert(goes_on(table, after));
                if r is Ok {
                    let next = done.push(SBinding { id, name, ty, initializer: r->Ok_0 });
                    bindings_go_on(items, lets, scopes, current, of, after, next);
                }
            },
            None => {},
        }
    }
}

proof fn expressions_go_on(
    items: Seq<SItem>,
    scopes: Seq<SScope>,
    last: Option<int>,
    expected: Option<SType>,
    of: ItemMaker,
    i: nat,
    table: SBindings,
    done: Seq<SChecked>,
)
    requires
        items_go_on(of, items),
    ensures
        goes_on(
            table,
            expressions_made(items, scopes, last, expected, of, i, table, done).0,
        ),
    decreases items.len() - i,
{
    if i < items.len() {
        match items[i as int] {
            SItem::Let(_, _) => {
                expressions_go_on(items, scopes, last, expected, of, i + 1, table, done);
            },
            SItem::Expr(_) => {
                let target = if last == Some(i as int) {
                    expected
                } else {
                    None
                };
                let (s1, r1) = of(table, i as int, scopes, target, None);
                let (s2, r2) = if r1 is Err && target is Some {
                    of(s1, i as int, scopes, None, None)
                } else {
                    (s1, r1)
                };
                assert(goes_on(table, s2));
                if r2 is Ok {
                    let next = done.push(r2->Ok_0);
                    expressions_go_on(items, scopes, last, expected, of, i + 1, s2, next);
                }
            },
            SItem::Invalid(_) => {},
        }
    }
}

proof fn block_rule_goes_on(
    env: SEnv,
    table: SBindings,
    outer: Seq<SScope>,
    items: Seq<SItem>,
    expected: Option<SType>,
    of: ItemMaker,
)
    requires
        items_go_on(of, items),
    ensures
        goes_on(table, compile::block_rule(env, table, outer, items, expected, of).0),
{
    reveal(compile::block_rule);
    reveal(block_scope);
    reveal(block_parts);
    let none: SLets = Seq::empty();
    allocation_goes_on(items, 0, table, none);
    let (s0, lets) = allocated(items, 0, table, none);
    functions_go_on(env, outer, items, lets, 0, s0, Seq::empty(), none);
    let (s1, r) = functions_declared(env, outer, items, lets, 0, s0, Seq::empty(), none);
    if r is Ok {
        let (scope, pending) = r->Ok_0;
        let names = let_names(items, lets);
        strict_rounds_go_on(env, outer, items, names, pending, s1, scope);
        let (s2, r2) = strict_rounds(env, outer, items, names, pending, s1, scope);
        if r2 is Ok {
            let current = r2->Ok_0;
            let scopes = outer.push(current);
            bindings_go_on(items, lets, scopes, current, of, s2, Seq::empty());
            let (s3, made) = bindings_made(items, lets, scopes, current, of, s2, Seq::empty());
            if made is Ok {
                finalizing_goes_on(env, s3, made->Ok_0);
                let s4 = finalized(env, s3, made->Ok_0).0;
                let last = last_expression(items, items.len());
                expressions_go_on(items, scopes, last, expected, of, 0, s4, Seq::empty());
            }
        }
    }
}

proof fn arguments_made_go_on(env: SEnv, scopes: Seq<SScope>, args: Seq<SExpr>)
    ensures
        parts_go_on(arguments(env, scopes, args), args.len()),
    decreases args, 0nat,
{
    let of = arguments(env, scopes, args);
    assert forall|s: SBindings, i: int, t: Option<SType>| 0 <= i < args.len() implies goes_on(
        s,
        (#[trigger] of(s, i, t)).0,
    ) by {
        compilation_goes_on(env, s, scopes, args[i], t);
    }
}

/// Compiling an expression gives out no identity twice.
pub proof fn compilation_goes_on(
    env: SEnv,
    table: SBindings,
    scopes: Seq<SScope>,
    e: SExpr,
    expected: Option<SType>,
)
    ensures
        goes_on(table, compiled(env, table, scopes, e, expected).0),
    decreases e, 3nat,
{
    form_goes_on(env, table, scopes, e, expected);
    let (after, r) = form_made(env, table, scopes, e, expected);
    finishing_goes_on(env, after, r, expected);
}

proof fn form_goes_on(
    env: SEnv,
    table: SBindings,
    scopes: Seq<SScope>,
    e: SExpr,
    expected: Option<SType>,
)
    ensures
        goes_on(table, form_made(env, table, scopes, e, expected).0),
    decreases e, 2nat,
{
    reveal_with_fuel(form_made, 2);
    match e {
        SExpr::Vector(items) => {
            arguments_made_go_on(env, scopes, items);
            let of = arguments(env, scopes, items);
            vector_goes_on(env, table, items.len(), expected, of);
        },
        SExpr::Fields(fields) => {
            let of = field_values(env, scopes, fields);
            assert forall|s: SBindings, i: int, t: Option<SType>|
                0 <= i < fields.len() implies goes_on(s, (#[trigger] of(s, i, t)).0) by {
                compilation_goes_on(env, s, scopes, fields[i].1, t);
            }
            record_goes_on(table, fields, expected, of, Seq::empty(), Seq::empty());
        },
        SExpr::If(condition, yes, no) => {
            let wanted = Some(SType::Bool);
            compilation_goes_on(env, table, scopes, *condition, wanted);
            let s1 = compiled(env, table, scopes, *condition, wanted).0;
            compilation_goes_on(env, s1, scopes, *yes, expected);
            let s2 = compiled(env, s1, scopes, *yes, expected).0;
            compilation_goes_on(env, s2, scopes, *no, expected);
        },
        SExpr::Construct(owner, constructor, payload) => {
            match denoted(env, owner, scope_vars(scopes)) {
                Ok(owner) => match constructor_of(env, owner, constructor) {
                    Ok(c) => {
                        compilation_goes_on(env, table, scopes, *payload, Some(c.payload));
                    },
                    Err(_) => {},
                },
                Err(_) => {},
            }
        },
        SExpr::Match(value, arms) => {
            compilation_goes_on(env, table, scopes, *value, None);
            let (s1, r) = compiled(env, table, scopes, *value, None);
            if r is Ok {
                let of = arm_bodies(env, arms);
                assert forall|s: SBindings, i: int, inner: Seq<SScope>, t: Option<SType>|
                    0 <= i < arms.len() implies goes_on(
                    s,
                    (#[trigger] of(s, i, inner, t)).0,
                ) by {
                    compilation_goes_on(env, s, inner, *arms[i].body, t);
                }
                reveal(match_rule);
                let owner = r->Ok_0.ty;
                let none: Seq<SConstructorId> = Seq::empty();
                arms_go_on(env, s1, scopes, owner, arms, of, none, expected, Seq::empty());
            }
        },
        SExpr::Ascribe(target, value) => match denoted(env, target, scope_vars(scopes)) {
            Ok(target) => {
                compilation_goes_on(env, table, scopes, *value, None);
                compilation_goes_on(env, table, scopes, *value, Some(target));
                match *value {
                    SExpr::Vector(items) => {
                        arguments_made_go_on(env, scopes, items);
                        let of = arguments(env, scopes, items);
                        vector_goes_on(env, table, items.len(), Some(target), of);
                    },
                    SExpr::Call(_, _) => {
                        call_made_goes_on(env, table, scopes, *value, Some(target));
                    },
                    _ => {},
                }
            },
            Err(_) => {},
        },
        SExpr::Function(f) => {
            function_goes_on(env, table, scopes, None, f, expected, None);
        },
        SExpr::Call(_, _) => {
            call_made_goes_on(env, table, scopes, e, expected);
        },
        _ => {},
    }
}

proof fn call_made_goes_on(
    env: SEnv,
    table: SBindings,
    scopes: Seq<SScope>,
    e: SExpr,
    expected: Option<SType>,
)
    requires
        e is Call,
    ensures
        goes_on(table, call_made(env, table, scopes, e, expected).0),
    decreases e, 1nat,
{
    match e {
        SExpr::Call(callee, args) => {
            let of = arguments(env, scopes, args);
            arguments_made_go_on(env, scopes, args);
            let s1 = match *callee {
                SExpr::Name(name) => {
                    let parts = first_positions(env, scopes, args);
                    if args.len() > 0 {
                        match args[0] {
                            SExpr::Vector(items) => {
                                arguments_made_go_on(env, scopes, items);
                                reveal_with_fuel(first_positions, 2);
                                assert(parts == arguments(env, scopes, items));
                            },
                            _ => {},
                        }
                    }
                    named_call_goes_on(env, table, scopes, name, args, expected, of, parts);
                    named_call_rule(env, table, scopes, name, args, expected, of, parts).0
                },
                _ => table,
            };
            compilation_goes_on(env, s1, scopes, *callee, None);
            let (s2, r) = compiled(env, s1, scopes, *callee, None);
            if r is Ok {
                value_call_goes_on(env, s2, r->Ok_0, args.len(), expected, of);
            }
        },
        _ => {},
    }
}

proof fn function_goes_on(
    env: SEnv,
    table: SBindings,
    scopes: Seq<SScope>,
    name: Option<Seq<char>>,
    f: SFunction,
    expected: Option<SType>,
    id: Option<BindingId>,
)
    ensures
        goes_on(table, function_made(env, table, scopes, name, f, expected, id).0),
    decreases f, 1nat,
{
    let body = body_value(env, f.body);
    assert forall|s: SBindings, inner: Seq<SScope>, t: SType|
        goes_on(s, (#[trigger] body(s, inner, t)).0) by {
        block_goes_on(env, s, inner, f.body, Some(t));
    }
    function_rule_goes_on(env, table, scopes, name, f, expected, id, body);
}

/// Compiling a block gives out no identity twice.
pub proof fn block_goes_on(
    env: SEnv,
    table: SBindings,
    outer: Seq<SScope>,
    items: Seq<SItem>,
    expected: Option<SType>,
)
    ensures
        goes_on(table, block_made(env, table, outer, items, expected).0),
    decreases items, 1nat,
{
    let of = item_values(env, items);
    assert forall|
        s: SBindings,
        i: int,
        scopes: Seq<SScope>,
        t: Option<SType>,
        id: Option<BindingId>,
    |
        0 <= i < items.len() && !(items[i] is Invalid) implies goes_on(
        s,
        (#[trigger] of(s, i, scopes, t, id)).0,
    ) by {
        match items[i] {
            SItem::Let(name, SExpr::Function(f)) => {
                function_goes_on(env, s, scopes, Some(name), f, t, id);
            },
            SItem::Let(_, x) => {
                compilation_goes_on(env, s, scopes, x, t);
            },
            SItem::Expr(x) => {
                compilation_goes_on(env, s, scopes, x, t);
            },
            SItem::Invalid(_) => {},
        }
    }
    block_rule_goes_on(env, table, outer, items, expected, of);
}

} // verus!
