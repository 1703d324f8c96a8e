use std::sync::Arc;

use nefor_mag::ast::{
    CheckedBlock, CheckedExpr, CheckedExprKind, CheckedFn, CheckedParam, FnValue, Value,
};
use nefor_mag::error::MagError;
use nefor_mag::files::FileAnswer;
use nefor_mag::fuel::{install, remaining};
use nefor_mag::json::Json;
use nefor_mag::limits::{CompilerLimits, CompilerOptions};
use nefor_mag::lisp::compile_source;
use nefor_mag::program::{
    apply_named, compile_cold, eval_program, make_program, Library, ModuleAnswer, Program,
};
use nefor_mag::session::{
    compile, compile_with_inputs, compile_with_options, CompileRequest, CompilerSession,
};
use nefor_mag::types::MagType;
use nefor_mag::wire::{parse_json, render};
use nefor_mag::world::{Wanted, World};

fn program(source: &str) -> Program {
    make_program(compile_source(source).unwrap())
}

fn built(source: &str) -> Result<String, MagError> {
    compile(&Library::new(), source).map(|j| render(&j))
}

fn typed_int(value: Value) -> i64 {
    match value {
        Value::Typed(value, _) => match value.as_ref() {
            Value::Int(value) => *value,
            _ => panic!("expected typed Int"),
        },
        _ => panic!("expected typed Int"),
    }
}

fn evaluated(source: &str, fuel: u64) -> World {
    let mut world = World::new(CompilerLimits::default());
    install(&mut world.budget, CompilerLimits::from(fuel));
    eval_program(&Library::new(), &mut world, &program(source)).map_err(|e| e.text()).unwrap();
    world
}

const LEXICAL: &str = "(let value 1) (let function (fn [[u Unit]] -> Int value)) (artifact {})";

fn shadowed(world: &mut World, value: i64) {
    world.env.push_scope();
    let World { env, table, .. } = world;
    env.define(table, "value", Value::Int(value));
}

#[test]
fn lexical_closure_overrides_colliding_caller_binding() {
    let mut world = evaluated(LEXICAL, 100);
    shadowed(&mut world, 99);
    let files = Library::new().files;
    let result = apply_named(&files, &mut world, "function", Value::Unit);
    assert_eq!(typed_int(result.map_err(|e| e.text()).unwrap()), 1);
}

#[test]
fn caller_only_late_binding_is_invisible() {
    let mut world = World::new(CompilerLimits::default());
    install(&mut world.budget, CompilerLimits::from(100));
    let closure = world.env.scopes.clone();
    world.env.push_scope();
    let World { env, table, .. } = &mut world;
    env.define(table, "late", Value::Int(42));
    let late = env.lookup_handles("late").pop().unwrap().id;
    let unit = table.allocate_binding_id("u", Some(MagType::Unit));
    let function = FnValue {
        identity: 0,
        name: None,
        type_params: vec![],
        equality_params: vec![],
        params: vec!["u".to_owned()],
        param_types: vec![MagType::Unit],
        return_type: MagType::Int,
        checked: Arc::new(CheckedFn {
            name: None,
            type_params: vec![],
            equality_params: vec![],
            params: vec![CheckedParam { id: unit, name: "u".to_owned(), ty: MagType::Unit }],
            result: MagType::Int,
            body: Arc::new(CheckedBlock {
                frame_layout: vec![],
                bindings: vec![],
                expressions: vec![CheckedExpr {
                    ty: MagType::Int,
                    kind: CheckedExprKind::BindingRef(late),
                }],
            }),
        }),
        closure,
    };
    env.define(table, "function", Value::Fn(Arc::new(function)));

    let files = Library::new().files;
    assert!(matches!(
        apply_named(&files, &mut world, "function", Value::Unit),
        Err(MagError::Unresolved(name)) if name == format!("binding#{}", late.0)
    ));
    let source = "(let function (fn [[u Unit]] -> Int late)) \
                  (let caller (fn [[late Int]] -> Int (function nil))) \
                  (artifact {:a (caller 42)})";
    assert!(matches!(built(source), Err(MagError::Unresolved(name)) if name == "late"));
}

#[test]
fn unchecked_same_type_closure_duplicates_are_ambiguous() {
    let mut world = World::new(CompilerLimits::default());
    install(&mut world.budget, CompilerLimits::from(100));
    let World { env, table, .. } = &mut world;
    env.define(table, "value", Value::Int(1));
    env.define(table, "value", Value::Int(2));
    let source = "(let function (fn [[u Unit]] -> Int value)) (function nil)";
    let error = eval_program(&Library::new(), &mut world, &program(source)).unwrap_err();
    assert!(error.text().contains("ambiguous overload value"), "{}", error.text());
}

#[test]
fn value_parameters_override_same_named_generic_bindings() {
    let mut world = evaluated("(let f (fn [T] [[T T]] -> T T)) (artifact {})", 1_000);
    let files = Library::new().files;
    let result = apply_named(&files, &mut world, "f", Value::Int(7));
    assert_eq!(typed_int(result.map_err(|e| e.text()).unwrap()), 7);
}

#[test]
fn memoized_result_is_independent_of_caller_only_bindings() {
    let mut world = evaluated(LEXICAL, 100);
    let files = Library::new().files;
    shadowed(&mut world, 99);
    let first = apply_named(&files, &mut world, "function", Value::Unit);
    assert_eq!(typed_int(first.map_err(|e| e.text()).unwrap()), 1);
    shadowed(&mut world, 100);
    let second = apply_named(&files, &mut world, "function", Value::Unit);
    assert_eq!(typed_int(second.map_err(|e| e.text()).unwrap()), 1);
}

#[test]
fn repeated_call_reuses_the_cached_shared_result_without_spending_fuel() {
    let mut world = evaluated(
        r#"
            (let values [1 2 3])
            (let copy (fn [[items (List Int)]] -> (List Int)
              (map (fn [[item Int]] -> Int item) items)))
            (artifact {})
        "#,
        1_000,
    );
    let argument = world.env.lookup("values").map_err(|e| e.text()).unwrap();
    let files = Library::new().files;

    let first = apply_named(&files, &mut world, "copy", argument.clone());
    let after_first = remaining(&world.budget).unwrap();
    let second = apply_named(&files, &mut world, "copy", argument);

    assert_eq!(remaining(&world.budget), Some(after_first));
    match (first, second) {
        (Ok(Value::Typed(left, _)), Ok(Value::Typed(right, _))) => {
            assert!(std::sync::Arc::ptr_eq(&left, &right));
        }
        _ => panic!("expected typed results"),
    }
}

#[test]
fn a_program_builds_its_artifact() {
    assert_eq!(
        built("(artifact {:b 2 :a [\"x\" \"y\"] :c {:d true :e nil}})").unwrap(),
        r#"{"a":["x","y"],"b":2,"c":{"d":true,"e":null}}"#
    );
}

#[test]
fn arithmetic_free_programs_compute_with_the_builtins() {
    assert_eq!(
        built(
            r#"
            (type Choice [T] (adt [Selected T] [Empty Unit]))
            (let choose (fn [T] [[value T]] -> (Choice T)
              (construct (Choice T) Selected value)))
            (let shown (fn [[c (Choice Int)]] -> String
              (match c [Selected n (str "got " n)] [Empty u "none"])))
            (artifact {:text (shown (choose 4))
                       :none (shown (construct (Choice Int) Empty nil))
                       :count (count [1 2 3])
                       :replaced (replace "a-b" "-" "+")
                       :picked (if (= 1 2) "same" "other")})
            "#
        )
        .map_err(|e| e.text())
        .unwrap(),
        r#"{"count":3,"none":"none","picked":"other","replaced":"a+b","text":"got 4"}"#
    );
}

#[test]
fn sorting_orders_by_key_and_keeps_equal_keys_in_place() {
    assert_eq!(
        built(
            r#"(artifact {:r (map (fn [[p {:k String :v Int}]] -> Int (get p :v))
                 (sort-by (fn [[p {:k String :v Int}]] -> String (get p :k))
                   [{:k "b" :v 1} {:k "a" :v 2} {:k "b" :v 3} {:k "a" :v 4}]))})"#
        )
        .map_err(|e| e.text())
        .unwrap(),
        r#"{"r":[2,4,1,3]}"#
    );
}

#[test]
fn programs_fail_with_the_error_of_their_kind() {
    assert!(matches!(built("(artifact {:a missing})"), Err(MagError::Unresolved(_))));
    assert!(matches!(built("(let x 1)"), Err(MagError::Eval(_))));
    assert!(matches!(
        built("(let f (fn [[x Int]] -> Int x)) (artifact {:a (f \"s\")})"),
        Err(MagError::Type(_))
    ));
    let looping = "(let f (fn [[x Int]] -> Int (f x))) (artifact {:a (f 1)})";
    assert!(matches!(compile(&Library::new(), looping), Err(MagError::Budget(_))));
    let options = CompilerOptions { limits: CompilerLimits::from(1) };
    let small = "(artifact {:a [1 2 3]})";
    assert!(matches!(
        compile_with_options(&Library::new(), small, options),
        Err(MagError::Budget(_))
    ));
    assert!(matches!(built("(artifact {:a 1}"), Err(MagError::Syntax(_))));
}

#[test]
fn host_inputs_reach_the_program() {
    let source = r#"(artifact {:n (get (host-input "config" (type-tag {:n Int})) :n)})"#;
    let inputs = parse_json(r#"{"config":{"n":5}}"#).unwrap();
    match compile_with_inputs(&Library::new(), source, inputs) {
        Ok(j) => assert_eq!(render(&j), r#"{"n":5}"#),
        Err(e) => panic!("{}", e.text()),
    }
}

#[test]
fn an_unknown_file_is_wanted_and_then_read() {
    let source = r#"(artifact {:t (read "notes.txt")})"#;
    let limits = CompilerLimits::default();
    let (world, result) =
        compile_cold(&Library::new(), &program(source), Json::Object(vec![]), limits);
    assert!(result.is_err());
    assert!(matches!(world.wanted, Some(Wanted::Text(ref p)) if p == "notes.txt"));
    let mut library = Library::new();
    library.files.texts.push(("notes.txt".to_owned(), FileAnswer::Text("hello".to_owned())));
    let (world, result) = compile_cold(&library, &program(source), Json::Object(vec![]), limits);
    assert!(world.wanted.is_none());
    assert_eq!(render(&result.map_err(|e| e.text()).unwrap()), r#"{"t":"hello"}"#);
}

#[test]
fn required_modules_are_qualified_and_loaded_once() {
    let source = r#"(require "support") (artifact {:n support.answer})"#;
    let limits = CompilerLimits::default();
    let (world, _) =
        compile_cold(&Library::new(), &program(source), Json::Object(vec![]), limits);
    assert!(matches!(world.wanted, Some(Wanted::Module(ref m)) if m == "support"));
    let mut library = Library::new();
    library
        .modules
        .push(("support".to_owned(), ModuleAnswer::Found(program("(let answer 42)"))));
    let (_, result) = compile_cold(&library, &program(source), Json::Object(vec![]), limits);
    assert_eq!(render(&result.map_err(|e| e.text()).unwrap()), r#"{"n":42}"#);
}

#[test]
fn circular_requirements_are_refused() {
    let mut library = Library::new();
    library.modules.push(("a".to_owned(), ModuleAnswer::Found(program("(require \"b\")"))));
    library.modules.push(("b".to_owned(), ModuleAnswer::Found(program("(require \"a\")"))));
    let source = r#"(require "a") (artifact {})"#;
    let (_, result) = compile_cold(
        &library,
        &program(source),
        Json::Object(vec![]),
        CompilerLimits::default(),
    );
    match result {
        Err(e) => assert!(e.text().contains("circular require"), "{}", e.text()),
        Ok(_) => panic!("circular"),
    }
}

#[test]
fn a_session_counts_what_was_submitted() {
    let mut session = CompilerSession::new();
    let request = |source| CompileRequest {
        source,
        inputs: Json::Object(vec![]),
        options: CompilerOptions::default(),
    };
    assert!(session.compile(&Library::new(), request("(artifact {})")).is_ok());
    assert!(session.compile_file(&Library::new(), request("(let x 1)")).is_err());
    let stats = session.stats();
    assert_eq!(stats.memory_compile_requests, 1);
    assert_eq!(stats.file_compile_requests, 1);
    assert_eq!(stats.cold_compilations, 2);
    assert_eq!(stats.successful_compilations, 1);
    assert_eq!(stats.failed_compilations, 1);
}
