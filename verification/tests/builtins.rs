use nefor_mag::bindings::Bindings;
use nefor_mag::builtins::{builtin_names, builtin_overload_types, collides_with_builtin};
use nefor_mag::compatible::compatible_in;
use nefor_mag::env::Env;
use nefor_mag::resolve::EXPANSION_LIMIT;
use nefor_mag::substitution::{NameSet, Substitution};
use nefor_mag::types::MagType;

fn function(params: Vec<MagType>, result: MagType) -> MagType {
    MagType::Function(params, Box::new(result))
}

#[test]
fn every_visible_builtin_has_collision_signatures() {
    let env = Env::new_with_stdlib(&mut Bindings::new());
    for name in builtin_names() {
        let signatures = if name == "str" {
            let representative = function(vec![MagType::Int], MagType::String);
            builtin_overload_types(name, Some(&representative))
        } else {
            builtin_overload_types(name, None)
        };
        assert!(!signatures.is_empty(), "visible builtin {name} has no signature inventory");
        for signature in signatures {
            assert!(
                collides_with_builtin(&env, name, &signature),
                "visible builtin {name} does not recognize signature {}",
                signature.show()
            );
        }
    }
}

#[test]
fn record_builtin_families_are_in_the_collision_inventory() {
    let env = Env::new_with_stdlib(&mut Bindings::new());
    let record = MagType::Record(vec![("value".to_owned(), MagType::Int)]);
    for (name, candidate) in [
        ("count", function(vec![record.clone()], MagType::Int)),
        (
            "keys",
            function(vec![record.clone()], MagType::List(Box::new(MagType::String))),
        ),
        ("get", function(vec![record.clone(), MagType::String], MagType::Int)),
        (
            "assoc",
            function(vec![record.clone(), MagType::String, MagType::Int], record.clone()),
        ),
    ] {
        assert!(collides_with_builtin(&env, name, &candidate), "{name}");
    }
}

#[test]
fn generic_product_components_are_inferred_positionally() {
    let env = Env::new_with_stdlib(&mut Bindings::new());
    let actual = MagType::Product(vec![MagType::String, MagType::String]);
    let expected =
        MagType::Product(vec![MagType::Var("A".to_owned()), MagType::Var("B".to_owned())]);
    let bindable = NameSet { names: vec!["A".to_owned(), "B".to_owned()] };
    let mut substitution = Substitution::new();
    compatible_in(
        &env,
        &actual,
        &expected,
        &mut substitution,
        Some(&bindable),
        EXPANSION_LIMIT,
    )
    .expect("a product should infer each generic occurrence");
    assert!(substitution.get("A").is_some_and(|t| t.equals(&MagType::String)));
    assert!(substitution.get("B").is_some_and(|t| t.equals(&MagType::String)));
}

#[test]
fn a_variable_takes_one_type_only() {
    let env = Env::new(&mut Bindings::new());
    let a = || MagType::Var("A".to_owned());
    let expected = MagType::Product(vec![a(), a()]);
    let actual = MagType::Product(vec![MagType::Int, MagType::String]);
    let mut substitution = Substitution::new();
    assert!(compatible_in(&env, &actual, &expected, &mut substitution, None, EXPANSION_LIMIT)
        .is_err());
}
