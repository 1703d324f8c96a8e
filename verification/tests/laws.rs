use std::sync::Arc;

use nefor_mag::ast::{
    CheckedBlock, CheckedExpr, CheckedExprKind, CheckedFn, FnValue, TypeDecl, TypeDeclBody, Value,
};
use nefor_mag::bindings::Bindings;
use nefor_mag::compatible::compatible_in;
use nefor_mag::concrete::{ConcreteConstructor, ConcreteNamedBody, ConcreteType};
use nefor_mag::descriptors::{concrete_type_from_json, concrete_type_to_json};
use nefor_mag::env::{BindingForce, Env};
use nefor_mag::fuel::remaining;
use nefor_mag::json::{canonicalize_json, equal_json, Json};
use nefor_mag::limits::{CompilerLimits, CompilerOptions};
use nefor_mag::lisp::compile_source;
use nefor_mag::memo::{memoize_call, memoized_call};
use nefor_mag::program::{
    compile_cold, eval_program, extract_artifact, make_program, Library, ModuleAnswer, Program,
};
use nefor_mag::resolve::EXPANSION_LIMIT;
use nefor_mag::session::compile_with_options;
use nefor_mag::substitution::{has_type_variables, substitute, Substitution};
use nefor_mag::types::MagType;
use nefor_mag::wire::{parse_json, render};
use nefor_mag::world::World;

fn program(source: &str) -> Program {
    make_program(compile_source(source).unwrap())
}

const WORK: &str = r#"
    (let twice (fn [[s String]] -> String (str s s)))
    (artifact {:r (map twice ["a" "b" "a"])})
"#;

#[test]
fn limits_bound_cost_and_do_not_alter_artifacts() {
    let run = |limits: CompilerLimits| {
        compile_with_options(&Library::new(), WORK, CompilerOptions { limits }).map(|j| render(&j))
    };
    let expected = r#"{"r":["aa","bb","aa"]}"#;
    let mut least = 0;
    while run(CompilerLimits::from(least)).is_err() {
        least += 1;
    }
    for steps in [least, least + 1, 1_000_000] {
        assert_eq!(run(CompilerLimits::from(steps)).map_err(|e| e.text()).unwrap(), expected);
    }
    let deep = CompilerLimits {
        call_depth: u16::MAX,
        expression_depth: u16::MAX,
        ..CompilerLimits::default()
    };
    assert_eq!(run(deep).map_err(|e| e.text()).unwrap(), expected);
    let forgetful = CompilerLimits { memoized_calls: 0, ..CompilerLimits::default() };
    assert_eq!(run(forgetful).map_err(|e| e.text()).unwrap(), expected);
}

#[test]
fn a_world_says_whether_a_call_was_forgotten() {
    let run = |memoized_calls| {
        let limits = CompilerLimits { memoized_calls, ..CompilerLimits::default() };
        let (world, result) =
            compile_cold(&Library::new(), &program(WORK), Json::Object(vec![]), limits);
        (world.forgot, result.map(|j| render(&j)).map_err(|e| e.text()).unwrap())
    };
    let expected = r#"{"r":["aa","bb","aa"]}"#.to_owned();
    for (memoized_calls, forgot) in [(0, true), (1, true), (2, false), (3, false), (100, false)] {
        assert_eq!(run(memoized_calls), (forgot, expected.clone()));
    }
}

#[test]
fn evaluation_only_spends() {
    let limits = CompilerLimits::from(1_000);
    let (world, result) =
        compile_cold(&Library::new(), &program(WORK), Json::Object(vec![]), limits);
    assert!(result.is_ok());
    assert!(remaining(&world.budget).is_some_and(|n| n < 1_000));
    assert_eq!((world.budget.calls, world.budget.exprs), (0, 0));
    assert!(world.stack.is_empty());
}

#[test]
fn remembered_calls_cost_nothing() {
    let left = |memoized_calls| {
        let limits = CompilerLimits { memoized_calls, ..CompilerLimits::default() };
        let (world, _) =
            compile_cold(&Library::new(), &program(WORK), Json::Object(vec![]), limits);
        remaining(&world.budget).unwrap()
    };
    assert!(left(16) > left(0));
}

#[test]
fn descriptors_read_back_whatever_their_type() {
    let text = ConcreteType::String;
    let fields = || vec![("a".to_owned(), ConcreteType::Int), ("b".to_owned(), text.clone())];
    let types = vec![
        ConcreteType::JsonValue,
        ConcreteType::Unit,
        ConcreteType::Bool,
        ConcreteType::Float,
        ConcreteType::List { item: Box::new(text.clone()) },
        ConcreteType::SetOf { item: Box::new(ConcreteType::Int) },
        ConcreteType::MapOf { key: Box::new(ConcreteType::Int), value: Box::new(text.clone()) },
        ConcreteType::Record { fields: fields() },
        ConcreteType::Product { items: vec![text.clone(), ConcreteType::Int] },
        ConcreteType::Named {
            name: "main.N".to_owned(),
            arguments: vec![text.clone()],
            body: ConcreteNamedBody::Alias { ty: Box::new(ConcreteType::Int) },
        },
        ConcreteType::Named {
            name: "main.R".to_owned(),
            arguments: vec![],
            body: ConcreteNamedBody::Fields { fields: fields() },
        },
        ConcreteType::Adt {
            name: "main.A".to_owned(),
            arguments: vec![],
            constructors: vec![
                ConcreteConstructor { name: "No".to_owned(), payload: ConcreteType::Unit },
                ConcreteConstructor { name: "Yes".to_owned(), payload: text.clone() },
            ],
        },
    ];
    for t in &types {
        let j = concrete_type_to_json(t);
        let read = concrete_type_from_json(&j).map_err(|e| e.text()).unwrap();
        assert!(read.equals(t), "{}", render(&j));
        let through_text = parse_json(&render(&j)).unwrap();
        assert!(concrete_type_from_json(&through_text).unwrap().equals(t));
        assert!(!has_type_variables(&t.to_mag_type()));
        assert!(t.accepts(t));
    }
}

#[test]
fn descriptors_out_of_form_are_refused() {
    for (text, reason) in [
        ("1", "must be an object"),
        ("{}", "needs string kind"),
        (r#"{"kind":"odd"}"#, "unknown semantic descriptor kind \"odd\""),
        (r#"{"kind":"primitive","name":"Odd"}"#, "unknown semantic primitive \"Odd\""),
        (r#"{"kind":"list"}"#, "needs item"),
        (r#"{"kind":"product","items":[]}"#, "at least two items"),
        (r#"{"kind":"adt","name":"A","arguments":[],"constructors":[]}"#, "needs constructors"),
        (
            r#"{"kind":"record","fields":[{"name":"b","type":{"kind":"primitive","name":"Int"}},{"name":"a","type":{"kind":"primitive","name":"Int"}}]}"#,
            "uniquely sorted",
        ),
    ] {
        let error = concrete_type_from_json(&parse_json(text).unwrap()).unwrap_err().text();
        assert!(error.contains(reason), "{text}: {error}");
    }
    let bodiless = r#"{"name":"main.N","arguments":[],"kind":"named"}"#;
    assert!(concrete_type_from_json(&parse_json(bodiless).unwrap()).is_ok());
}

#[test]
fn canonical_documents_stay_as_they_are() {
    let j = parse_json(r#"{"z":[{"b":1,"a":2}],"a":{"d":0,"c":null},"m":1.5}"#).unwrap();
    let once = canonicalize_json(&j);
    assert_eq!(render(&once), r#"{"a":{"c":null,"d":0},"m":1.5,"z":[{"a":2,"b":1}]}"#);
    assert_eq!(render(&canonicalize_json(&once)), render(&once));
    assert!(equal_json(&j, &once));
    assert_eq!(render(&parse_json(r#"{"b":1,"a":2,"b":3}"#).unwrap()), r#"{"b":3,"a":2}"#);
}

fn constant(n: i64) -> Arc<CheckedExpr> {
    Arc::new(CheckedExpr { ty: MagType::Int, kind: CheckedExprKind::Int(n) })
}

#[test]
fn bindings_are_forced_once() {
    let mut table = Bindings::new();
    let mut env = Env::new(&mut table);
    let id = table.allocate_binding_id("x", Some(MagType::Int));
    env.declare_binding_slot(id, "x", constant(1)).map_err(|e| e.text()).unwrap();
    assert!(env.ready_binding(id).is_err());
    assert!(env.complete_binding_force(id, Value::Int(1)).is_err());
    assert!(matches!(env.begin_binding_force(id), Ok(BindingForce::Initialize { .. })));
    assert!(env.begin_binding_force(id).is_err());
    env.reset_binding_force(id, constant(1)).map_err(|e| e.text()).unwrap();
    assert!(matches!(env.begin_binding_force(id), Ok(BindingForce::Initialize { .. })));
    env.complete_binding_force(id, Value::Int(7)).map_err(|e| e.text()).unwrap();
    assert!(matches!(env.begin_binding_force(id), Ok(BindingForce::Ready(Value::Int(7)))));
    let handles = env.lookup_handles("x");
    assert_eq!(handles.len(), 1);
    assert!(matches!(env.ready_handle(&handles[0]), Ok(Value::Int(7))));
    let missing = table.allocate_binding_id("y", None);
    match env.begin_binding_force(missing) {
        Err(e) => assert!(e.text().starts_with("unresolved symbol: binding#")),
        Ok(_) => panic!("nothing is bound"),
    }
}

#[test]
fn comparisons_keep_what_is_bound() {
    let env = Env::new(&mut Bindings::new());
    let var = |n: &str| MagType::Var(n.to_owned());
    let mut subst = Substitution::new();
    subst.insert("A", MagType::Int);
    let fits = |actual: &MagType, expected: &MagType, subst: &mut Substitution| {
        compatible_in(&env, actual, expected, subst, None, EXPANSION_LIMIT).is_ok()
    };
    assert!(!fits(&MagType::String, &var("A"), &mut subst));
    assert!(subst.get("A").unwrap().equals(&MagType::Int));
    assert!(fits(&MagType::Int, &var("A"), &mut subst));
    assert!(fits(&MagType::Bool, &var("B"), &mut subst));
    assert!(subst.get("B").unwrap().equals(&MagType::Bool));
    let t = MagType::List(Box::new(var("C")));
    assert!(substitute(&t, &subst).equals(&t));
    assert!(fits(&t, &t, &mut subst));
    assert!(subst.get("C").is_none());
}

#[test]
fn components_and_positions_are_matched_one_to_one() {
    let (i, s, b) = (ConcreteType::Int, ConcreteType::String, ConcreteType::Bool);
    let input = ConcreteType::Product { items: vec![i.clone(), s.clone(), i.clone(), b.clone()] };
    let sources = vec![b, i.clone(), s, i];
    let positions = input.assign_input_sources(&sources).unwrap();
    assert_eq!(positions, vec![Some(3), Some(0), Some(1), Some(2)]);
    let mut sorted: Vec<usize> = positions.into_iter().flatten().collect();
    sorted.sort();
    assert_eq!(sorted, vec![0, 1, 2, 3]);
}

#[test]
fn nominal_types_resolve_through_their_declarations() {
    let mut table = Bindings::new();
    let mut env = Env::new(&mut table);
    let name = env.qualify("Boxed");
    assert_eq!(name, "main.Boxed");
    let declaration = TypeDecl {
        name: name.clone(),
        params: vec!["T".to_owned()],
        body: TypeDeclBody::Nominal(MagType::List(Box::new(MagType::Var("T".to_owned())))),
    };
    env.define(&mut table, "Boxed", Value::TypeDecl(declaration));
    let resolved =
        ConcreteType::resolve(&env, &MagType::Named(name.clone(), vec![MagType::Int])).unwrap();
    assert!(resolved.equals(&ConcreteType::Named {
        name,
        arguments: vec![ConcreteType::Int],
        body: ConcreteNamedBody::Alias {
            ty: Box::new(ConcreteType::List { item: Box::new(ConcreteType::Int) }),
        },
    }));
    assert!(ConcreteType::resolve(&env, &MagType::Named("main.Gone".to_owned(), vec![])).is_err());
}

#[test]
fn wire_forms_hold_items_in_one_order() {
    let env = Env::new(&mut Bindings::new());
    let written = |items: Vec<i64>| {
        let set = Value::SetOf(Arc::new(items.into_iter().map(Value::Int).collect()));
        render(&nefor_mag::codec::value_to_json(&env, &set).unwrap())
    };
    assert_eq!(written(vec![3, 1, 2]), r#"{"$mag":"set","items":[1,2,3]}"#);
    assert_eq!(written(vec![2, 3, 1]), written(vec![3, 1, 2]));
    assert_eq!(written(vec![10, 9]), r#"{"$mag":"set","items":[10,9]}"#);
}

#[test]
fn typed_products_bear_types_position_by_position() {
    let env = Env::new(&mut Bindings::new());
    let pair = Value::List(Arc::new(vec![Value::Int(1), Value::Str("a".to_owned())]));
    let ty = MagType::Product(vec![MagType::Int, MagType::String]);
    let typed = nefor_mag::conformance::checked_typed_value(&env, pair, &ty);
    let Ok(Value::Product(items)) = typed else {
        panic!("product expected")
    };
    assert!(matches!(&items[0], Value::Typed(_, t) if t.equals(&MagType::Int)));
    assert!(matches!(&items[1], Value::Typed(_, t) if t.equals(&MagType::String)));
    let short = Value::List(Arc::new(vec![Value::Int(1)]));
    assert!(nefor_mag::conformance::checked_typed_value(&env, short, &ty).is_err());
}

#[test]
fn room_for_more_remembered_calls_may_cost_more_and_alters_nothing() {
    let work = program(
        "(let f (fn [[n Int]] -> String (str n))) (artifact {:r (map f [1 2 3 4 3])})",
    );
    let run = |memoized_calls| {
        let limits = CompilerLimits { memoized_calls, ..CompilerLimits::default() };
        let (world, result) = compile_cold(&Library::new(), &work, Json::Object(vec![]), limits);
        (remaining(&world.budget).unwrap(), render(&result.map_err(|e| e.text()).unwrap()))
    };
    let (two, three) = (run(2), run(3));
    assert!(two.0 > three.0);
    assert_eq!(two.1, r#"{"r":["1","2","3","4","3"]}"#);
    assert_eq!(two.1, three.1);
}

#[test]
fn identities_tell_types_apart() {
    let named = |arguments| ConcreteType::Named {
        name: "main.Tagged".to_owned(),
        arguments,
        body: ConcreteNamedBody::Alias { ty: Box::new(ConcreteType::Int) },
    };
    let types = [
        ConcreteType::Int,
        ConcreteType::List { item: Box::new(ConcreteType::Int) },
        ConcreteType::SetOf { item: Box::new(ConcreteType::Int) },
        ConcreteType::Product { items: vec![ConcreteType::Int, ConcreteType::Int] },
        named(vec![ConcreteType::Int]),
        named(vec![ConcreteType::String]),
    ];
    let mut seen: Vec<String> = vec![];
    for ty in &types {
        let id = ty.stable_id().as_str().to_owned();
        let digits = id.strip_prefix("sha256:").unwrap();
        assert_eq!(digits.len(), 64);
        assert!(digits.chars().all(|c| c.is_ascii_digit() || ('a'..='f').contains(&c)));
        assert_eq!(id, ty.stable_id().as_str());
        assert!(!seen.contains(&id));
        seen.push(id);
    }
}

#[test]
fn calls_are_recalled_by_arguments_that_can_be_told_to_be_the_same() {
    let int = MagType::Int;
    let function = Arc::new(FnValue {
        identity: 7,
        name: None,
        type_params: vec![],
        equality_params: vec![],
        params: vec!["x".to_owned()],
        param_types: vec![int.clone()],
        return_type: int.clone(),
        checked: Arc::new(CheckedFn {
            name: None,
            type_params: vec![],
            equality_params: vec![],
            params: vec![],
            result: int,
            body: Arc::new(CheckedBlock {
                frame_layout: vec![],
                bindings: vec![],
                expressions: vec![],
            }),
        }),
        closure: vec![],
    });
    let recalled = |argument: &dyn Fn() -> Value| {
        let mut memos = vec![];
        memoize_call(&mut memos, 2, &function, None, &vec![argument()], &Value::Int(1));
        match memoized_call(&memos, &function, None, &vec![argument()]) {
            Some(Value::Int(n)) => Some(n),
            Some(_) => unreachable!(),
            None => None,
        }
    };
    let record = || Value::Record(Arc::new(vec![("a".to_owned(), Value::Int(3))]));
    assert_eq!(recalled(&|| Value::Int(3)), Some(1));
    assert_eq!(recalled(&|| Value::Str("a".to_owned())), Some(1));
    assert_eq!(recalled(&|| Value::List(Arc::new(vec![Value::Int(3)]))), Some(1));
    assert_eq!(recalled(&|| Value::SetOf(Arc::new(vec![Value::Int(3)]))), None);
    assert_eq!(recalled(&record), None);
    assert_eq!(recalled(&|| Value::JsonValue(Json::Null)), None);

    let mut memos = vec![];
    memoize_call(&mut memos, 0, &function, None, &vec![Value::Int(3)], &Value::Int(1));
    assert!(memos.is_empty());
}

#[test]
fn documents_that_were_read_equal_themselves() {
    for text in ["1.5", "-0.0", "[1e300, {\"a\": null}]", "{\"b\": 2, \"a\": [true]}"] {
        let document = parse_json(text).unwrap();
        assert!(equal_json(&document, &document), "{text}");
    }
    assert!(parse_json("1e400").is_err());
    assert!(parse_json("NaN").is_err());
}

#[test]
fn declarations_may_stand_for_each_other_as_often_as_there_are_any() {
    let mut source = "(type T0 Int)".to_owned();
    for i in 1..60 {
        source.push_str(&format!(" (type T{i} T{})", i - 1));
    }
    source.push_str(" (let same (fn [[x T59]] -> T59 x)) (artifact {:a 1})");
    let limits = CompilerLimits::default();
    let built = compile_with_options(&Library::new(), &source, CompilerOptions { limits });
    assert_eq!(built.map(|j| render(&j)).map_err(|e| e.text()).unwrap(), r#"{"a":1}"#);
}

#[test]
fn ready_bindings_keep_their_values_through_evaluation() {
    let mut world = World::new(CompilerLimits::default());
    let World { env, table, .. } = &mut world;
    env.define(table, "x", Value::Int(1));
    let handle = env.lookup_handles("x").pop().unwrap();
    let work = program(
        "(let f (fn [[n Int]] -> String (str n \"-\" n))) (artifact {:r (map f [x 5 x]) :x x})",
    );
    let value = eval_program(&Library::new(), &mut world, &work).map_err(|e| e.text()).unwrap();
    let artifact = extract_artifact(&value, "program").map_err(|e| e.text()).unwrap();
    assert_eq!(render(&artifact), r#"{"r":["1-1","5-5","1-1"],"x":1}"#);
    assert!(matches!(world.env.ready_handle(&handle), Ok(Value::Int(1))));
}

#[test]
fn identities_of_bindings_are_given_out_once() {
    let mut world = World::new(CompilerLimits::default());
    let first = world.table.allocate_binding_id("first", None);
    let work = program(
        "(type T Int) (let f (fn [[n Int]] -> Int n)) (artifact {:r (map f [1 2])})",
    );
    eval_program(&Library::new(), &mut world, &work).map_err(|e| e.text()).unwrap();
    let second = world.table.allocate_binding_id("second", None);
    assert!(second.0 > first.0 + 2);
    let third = world.table.allocate_binding_id("third", None);
    assert_eq!(third.0, second.0 + 1);
}

#[test]
fn remembered_calls_of_modules_are_recalled_where_they_are_required() {
    let module = program("(let f (fn [[n Int]] -> String (str n))) (let g (f 1))");
    let mut library = Library::new();
    library.modules.push(("m".to_owned(), ModuleAnswer::Found(module)));
    let work = program("(require \"m\") (artifact {:r (map m.f [1 2 1])})");
    let run = |memoized_calls| {
        let limits = CompilerLimits { memoized_calls, ..CompilerLimits::default() };
        let (world, result) = compile_cold(&library, &work, Json::Object(vec![]), limits);
        let spent = remaining(&world.budget).unwrap();
        (spent, render(&result.map_err(|e| e.text()).unwrap()))
    };
    let (many, none) = (run(16), run(0));
    assert_eq!(many.1, r#"{"r":["1","2","1"]}"#);
    assert_eq!(none.1, many.1);
    assert!(many.0 > none.0);
}
