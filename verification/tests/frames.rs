use std::sync::Arc;

use nefor_mag::ast::{CheckedBlock, CheckedFn, FnValue, FrameId, Value};
use nefor_mag::bindings::Bindings;
use nefor_mag::collection::FRAME_COLLECTION_THRESHOLD;
use nefor_mag::env::Env;
use nefor_mag::error::MagError;
use nefor_mag::types::MagType;

fn closure(captures: Vec<FrameId>) -> Value {
    Value::Fn(Arc::new(FnValue {
        identity: 0,
        name: None,
        type_params: vec![],
        equality_params: vec![],
        params: vec![],
        param_types: vec![],
        return_type: MagType::Unit,
        checked: Arc::new(CheckedFn {
            name: None,
            type_params: vec![],
            equality_params: vec![],
            params: vec![],
            result: MagType::Unit,
            body: Arc::new(CheckedBlock {
                frame_layout: vec![],
                bindings: vec![],
                expressions: vec![],
            }),
        }),
        closure: captures,
    }))
}

#[test]
fn self_referential_activation_is_reclaimed() {
    let mut table = Bindings::new();
    let mut env = Env::new(&mut table);
    let baseline = env.live_frame_count();
    env.push_scope();
    let activation = *env.scopes.last().unwrap();
    env.define(&mut table, "recursive", closure(vec![activation]));
    env.pop_scope();

    assert_eq!(env.collect_frames(&vec![]), 1);
    assert_eq!(env.live_frame_count(), baseline);
}

#[test]
fn escaped_closure_keeps_its_activation_until_the_external_root_is_gone() {
    let mut table = Bindings::new();
    let mut env = Env::new(&mut table);
    let baseline = env.live_frame_count();
    env.push_scope();
    let activation = *env.scopes.last().unwrap();
    let escaped = closure(vec![activation]);
    env.define(&mut table, "recursive", escaped.clone());
    env.pop_scope();

    assert_eq!(env.collect_frames(&vec![escaped]), 0);
    assert_eq!(env.live_frame_count(), baseline + 1);
    assert_eq!(env.collect_frames(&vec![]), 1);
    assert_eq!(env.live_frame_count(), baseline);
}

#[test]
fn repeated_activations_do_not_accumulate_frames() {
    let mut table = Bindings::new();
    let mut env = Env::new(&mut table);
    let baseline = env.live_frame_count();
    for _ in 0..128 {
        env.push_scope();
        let activation = *env.scopes.last().unwrap();
        env.define(&mut table, "recursive", closure(vec![activation]));
        env.pop_scope();
        env.collect_frames(&vec![]);
        assert_eq!(env.live_frame_count(), baseline);
    }
}

#[test]
fn retained_frames_do_not_retrigger_collection_without_new_allocations() {
    let mut table = Bindings::new();
    let mut env = Env::new(&mut table);
    let mut escaped = Vec::new();
    for _ in 0..FRAME_COLLECTION_THRESHOLD {
        env.push_scope();
        escaped.push(closure(vec![*env.scopes.last().unwrap()]));
        env.pop_scope();
    }

    assert!(env.frame_collection_due());
    assert_eq!(env.collect_frames(&escaped), 0);
    assert!(!env.frame_collection_due());

    for _ in 0..FRAME_COLLECTION_THRESHOLD {
        env.push_scope();
        env.pop_scope();
    }
    assert!(!env.frame_collection_due());

    for _ in 0..FRAME_COLLECTION_THRESHOLD {
        env.push_scope();
        env.pop_scope();
    }
    assert!(env.frame_collection_due());
}

#[test]
fn shared_value_dags_do_not_expand_during_frame_collection() {
    let mut table = Bindings::new();
    let mut env = Env::new(&mut table);
    let baseline = env.live_frame_count();
    env.push_scope();
    let mut shared = closure(vec![*env.scopes.last().unwrap()]);
    env.pop_scope();

    for _ in 0..24 {
        shared = Value::List(Arc::new(vec![shared.clone(), shared]));
    }

    assert_eq!(env.collect_frames(&vec![shared]), 0);
    assert_eq!(env.live_frame_count(), baseline + 1);
    assert_eq!(env.collect_frames(&vec![]), 1);
}

#[test]
fn a_chain_of_closures_is_kept_from_one_root() {
    let mut table = Bindings::new();
    let mut env = Env::new(&mut table);
    let baseline = env.live_frame_count();
    let mut last = Value::Unit;
    for _ in 0..5 {
        env.push_scope();
        env.define(&mut table, "inner", last);
        last = closure(vec![*env.scopes.last().unwrap()]);
        env.pop_scope();
    }
    assert_eq!(env.collect_frames(&vec![last]), 0);
    assert_eq!(env.live_frame_count(), baseline + 5);
    assert_eq!(env.collect_frames(&vec![]), 5);
}

#[test]
fn a_popped_scope_is_no_longer_looked_up() {
    let mut table = Bindings::new();
    let mut env = Env::new(&mut table);
    env.define(&mut table, "x", Value::Int(1));
    env.push_scope();
    env.define(&mut table, "x", Value::Int(2));
    assert!(matches!(env.lookup("x"), Ok(Value::Int(2))));
    env.pop_scope();
    assert!(matches!(env.lookup("x"), Ok(Value::Int(1))));
    assert!(env.lookup("y").is_err());
}

#[test]
fn binding_handles_do_not_keep_a_dropped_frame_alive() {
    let mut table = Bindings::new();
    let mut env = Env::new(&mut table);
    env.push_scope();
    env.define(&mut table, "answer", Value::Int(42));
    let handle = env.lookup_handles("answer").pop().unwrap();
    assert!(matches!(env.ready_handle(&handle), Ok(Value::Int(42))));
    env.pop_scope();
    assert_eq!(env.collect_frames(&vec![]), 1);

    assert!(matches!(
        env.ready_handle(&handle),
        Err(MagError::Eval(message)) if message == "binding frame was reclaimed"
    ));
}

#[test]
fn binding_handles_do_not_keep_a_dropped_program_alive() {
    let mut table = Bindings::new();
    let handle = {
        let mut env = Env::of_program(&mut table, 1);
        env.define(&mut table, "answer", Value::Int(42));
        let handle = env.lookup_handles("answer").pop().unwrap();
        assert!(env.owns_binding_handle(&handle));
        assert!(matches!(env.ready_handle(&handle), Ok(Value::Int(42))));
        handle
    };

    let mut env = Env::of_program(&mut table, 2);
    env.define(&mut table, "answer", Value::Int(43));
    assert!(!env.owns_binding_handle(&handle));
    assert!(matches!(
        env.ready_handle(&handle),
        Err(MagError::Eval(message)) if message == "binding program has been dropped"
    ));
    assert!(matches!(
        env.begin_handle_force(&handle),
        Err(MagError::Eval(message)) if message == "binding program has been dropped"
    ));
}
