use nefor_mag::ast::{TypeDecl, TypeDeclBody, Value};
use nefor_mag::bindings::Bindings;
use nefor_mag::compatible::compatible_in;
use nefor_mag::concrete::{ConcreteConstructor, ConcreteType, InputAssignmentError};
use nefor_mag::env::Env;
use nefor_mag::resolve::EXPANSION_LIMIT;
use nefor_mag::substitution::Substitution;
use nefor_mag::types::MagType;

fn env_with_types() -> Env {
    let mut table = Bindings::new();
    let mut env = Env::new(&mut table);
    for (local, ty) in [("X", MagType::Int), ("Y", MagType::Int), ("Z", MagType::String)] {
        env.define(
            &mut table,
            local,
            Value::TypeDecl(TypeDecl {
                name: format!("main.{local}"),
                params: vec![],
                body: TypeDeclBody::Nominal(MagType::Record(vec![("value".to_owned(), ty)])),
            }),
        );
    }
    env
}

fn named(name: &str) -> MagType {
    MagType::Named(name.to_owned(), vec![])
}

#[test]
fn products_preserve_order_grouping_arity_and_repetition() {
    let env = env_with_types();
    let x = named("main.X");
    let y = named("main.Y");
    let left = ConcreteType::resolve(
        &env,
        &MagType::Product(vec![MagType::Product(vec![x.clone(), y.clone()]), x.clone()]),
    )
    .unwrap();
    let right = ConcreteType::resolve(
        &env,
        &MagType::Product(vec![x.clone(), MagType::Product(vec![y, x.clone()])]),
    )
    .unwrap();
    let flat = ConcreteType::resolve(&env, &MagType::Product(vec![x.clone(), x])).unwrap();
    assert!(!left.equals(&right));
    let ConcreteType::Product { items } = flat else {
        panic!("product expected")
    };
    assert_eq!(items.len(), 2);
    assert!(items[0].equals(&items[1]));
}

#[test]
fn graph_edges_use_central_compatibility_and_products_require_occurrences() {
    let text = ConcreteType::resolve(&env_with_types(), &named("main.Z")).unwrap();
    let int = ConcreteType::resolve(&env_with_types(), &named("main.X")).unwrap();
    let pair = ConcreteType::Product { items: vec![text.clone(), text.clone()] };
    assert!(pair.accepts_edge_source(&text));
    assert!(!pair.accepts_edge_source(&int));
    assert!(pair.input_is_covered_by(&vec![pair.clone()]));
    assert!(pair.input_is_covered_by(&vec![text.clone(), text.clone()]));
    assert!(!pair.input_is_covered_by(&vec![text.clone()]));
    assert!(!pair.input_is_covered_by(&vec![text, int]));
}

#[test]
fn product_assignments_preserve_wholes_and_order_equal_occurrences() {
    let text = ConcreteType::resolve(&env_with_types(), &named("main.Z")).unwrap();
    let pair = ConcreteType::Product { items: vec![text.clone(), text.clone()] };
    assert_eq!(
        pair.assign_input_sources(&vec![text.clone(), pair.clone(), text]).unwrap(),
        vec![Some(0), None, Some(1)]
    );
}

#[test]
fn incomplete_coverage_is_an_error() {
    let pair = ConcreteType::Product { items: vec![ConcreteType::Int, ConcreteType::String] };
    assert_eq!(
        pair.assign_input_sources(&vec![ConcreteType::Int]),
        Err(InputAssignmentError::IncompleteCoverage)
    );
    assert_eq!(
        InputAssignmentError::IncompleteCoverage.text(),
        "incoming edge types do not completely cover the input"
    );
    assert!(ConcreteType::Int.assign_input_sources(&vec![]).is_err());
    assert!(matches!(
        pair.assign_input_sources(&vec![]),
        Err(InputAssignmentError::IncompleteCoverage)
    ));
    assert!(!pair.input_is_covered_by(&vec![]));
    let mixed = ConcreteType::Product { items: vec![ConcreteType::Int, ConcreteType::String] };
    assert!(!mixed.input_is_covered_by(&vec![]));
    assert!(ConcreteType::Product { items: vec![] }.input_is_covered_by(&vec![]));
    assert!(ConcreteType::Int.output_is_covered_by(&vec![pair.clone()]));
    assert!(!ConcreteType::Bool.output_is_covered_by(&vec![pair]));
}

#[test]
fn stable_ids_match_across_independent_environments() {
    let first = ConcreteType::resolve(&env_with_types(), &named("main.X")).unwrap();
    let second = ConcreteType::resolve(&env_with_types(), &named("main.X")).unwrap();
    assert_eq!(first.stable_id().as_str(), second.stable_id().as_str());
    assert!(first.stable_id().as_str().starts_with("sha256:"));
}

#[test]
fn adt_and_constructor_ids_are_nominal_and_instantiation_sensitive() {
    let constructors = || {
        vec![
            ConcreteConstructor { name: "Err".to_owned(), payload: ConcreteType::String },
            ConcreteConstructor { name: "Ok".to_owned(), payload: ConcreteType::Int },
        ]
    };
    let first = ConcreteType::Adt {
        name: "main.Result".to_owned(),
        arguments: vec![ConcreteType::String, ConcreteType::Int],
        constructors: constructors(),
    };
    let phantom = ConcreteType::Adt {
        name: "main.Result".to_owned(),
        arguments: vec![ConcreteType::Bool, ConcreteType::Int],
        constructors: constructors(),
    };
    let other = ConcreteType::Adt {
        name: "main.Other".to_owned(),
        arguments: vec![ConcreteType::String, ConcreteType::Int],
        constructors: constructors(),
    };

    assert_eq!(
        first.stable_id().as_str(),
        "sha256:b0fb26fdf5d68d7852b5cded5f51f6f226f9351809f8128112241b724dd82176"
    );
    assert_eq!(
        first.constructor_id("Ok").unwrap().as_str(),
        "sha256:5945fa2b4a925d868c3e575bbb4326689bd890a7458b8b590cf8d071aa99aa98"
    );
    assert_ne!(first.stable_id().as_str(), phantom.stable_id().as_str());
    assert_ne!(first.stable_id().as_str(), other.stable_id().as_str());
    assert_ne!(
        first.constructor_id("Ok").unwrap().as_str(),
        phantom.constructor_id("Ok").unwrap().as_str()
    );
    assert_ne!(
        first.constructor_id("Ok").unwrap().as_str(),
        other.constructor_id("Ok").unwrap().as_str()
    );
    assert!(first.constructor_id("Missing").is_err());
}

#[test]
fn sets_resolve_round_trip_and_use_item_compatibility() {
    let mut table = Bindings::new();
    let env = Env::new(&mut table);
    let concrete =
        ConcreteType::resolve(&env, &MagType::SetOf(Box::new(MagType::Int))).unwrap();
    assert!(concrete.equals(&ConcreteType::SetOf { item: Box::new(ConcreteType::Int) }));
    assert!(concrete.to_mag_type().equals(&MagType::SetOf(Box::new(MagType::Int))));
    assert!(concrete.accepts(&ConcreteType::SetOf { item: Box::new(ConcreteType::Int) }));
    assert!(!concrete.accepts(&ConcreteType::SetOf { item: Box::new(ConcreteType::String) }));
    assert_eq!(concrete.stable_id().as_str(), concrete.clone().stable_id().as_str());
}

#[test]
fn open_and_non_runtime_types_cannot_be_descriptors() {
    let env = env_with_types();
    for ty in [
        MagType::Var("T".to_owned()),
        MagType::EmptyList,
        MagType::Artifact,
        MagType::Function(vec![MagType::Int], Box::new(MagType::Int)),
    ] {
        assert!(ConcreteType::resolve(&env, &ty).is_err(), "{}", ty.show());
    }
}

#[test]
fn declarations_of_a_type_are_keyed_by_identity() {
    let x = ConcreteType::resolve(&env_with_types(), &named("main.X")).unwrap();
    let pair = ConcreteType::Product { items: vec![x.clone(), x.clone()] };
    let declared = pair.declarations().unwrap();
    assert!(declared.iter().any(|(id, t)| id == x.stable_id().as_str() && t.equals(&x)));
}

#[test]
fn closed_types_show_their_structure() {
    let env = env_with_types();
    let shown = |ty: MagType| ConcreteType::resolve(&env, &ty).unwrap().structure();
    assert_eq!(shown(MagType::Int), "Int");
    assert_eq!(shown(MagType::List(Box::new(MagType::Bool))), "List { item: Bool }");
    assert_eq!(
        shown(named("main.X")),
        "Named { name: \"main.X\", arguments: [], body: Fields { fields: {\"value\": Int} } }"
    );
    assert_eq!(
        shown(MagType::Product(vec![MagType::Unit, MagType::String])),
        "Product { items: [Unit, String] }"
    );
    assert_eq!(
        shown(MagType::Record(vec![
            ("a".to_owned(), MagType::Int),
            ("b".to_owned(), MagType::Float),
        ])),
        "Record { fields: {\"a\": Int, \"b\": Float} }"
    );
}

#[test]
fn closed_types_that_do_not_fit_are_shown_in_full() {
    let env = env_with_types();
    let fit = |actual: &MagType, expected: &MagType| {
        compatible_in(
            &env,
            actual,
            expected,
            &mut Substitution::new(),
            None,
            EXPANSION_LIMIT,
        )
    };
    assert_eq!(
        fit(&named("main.Z"), &named("main.X")).unwrap_err(),
        "expected nominal Named { name: \"main.X\", arguments: [], body: \
         Fields { fields: {\"value\": Int} } }, got Named { name: \"main.Z\", arguments: [], \
         body: Fields { fields: {\"value\": String} } }; use as for explicit refinement"
    );
    assert_eq!(
        fit(&MagType::Int, &MagType::List(Box::new(MagType::Int))).unwrap_err(),
        "expected List { item: Int }, got Int"
    );
    assert!(fit(&named("main.X"), &named("main.X")).is_ok());
}
