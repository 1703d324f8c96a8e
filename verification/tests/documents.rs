use std::sync::Arc;

use nefor_mag::ast::{Float, Value};
use nefor_mag::bindings::Bindings;
use nefor_mag::codec::{json_to_typed_value, json_to_value, project_typed_value, value_to_json};
use nefor_mag::concrete::{ConcreteNamedBody, ConcreteType};
use nefor_mag::descriptors::{concrete_type_from_json, concrete_type_to_json};
use nefor_mag::env::Env;
use nefor_mag::json::{canonicalize_json, equal_json, Json};
use nefor_mag::types::MagType;
use nefor_mag::wire::{parse_json, render, render_bytes};

fn env() -> Env {
    Env::new(&mut Bindings::new())
}

fn json(text: &str) -> Json {
    parse_json(text).unwrap()
}

fn float(x: f64) -> Float {
    Float { bits: x.to_bits(), text: x.to_string() }
}

fn record(fields: Vec<(&str, MagType)>) -> MagType {
    MagType::Record(fields.into_iter().map(|(n, t)| (n.to_owned(), t)).collect())
}

#[test]
fn typed_int_accepts_provider_integer_notation_and_rejects_non_ints() {
    let env = env();
    assert!(matches!(
        json_to_typed_value(&env, &json("1.0"), &MagType::Int).unwrap(),
        Value::Int(1)
    ));
    for value in [json("1.5"), json("9223372036854775808.0")] {
        assert!(json_to_typed_value(&env, &value, &MagType::Int).is_err());
    }
}

#[test]
fn typed_int_canonicalizes_provider_integer_notation_recursively() {
    let env = env();
    let ty = MagType::List(Box::new(record(vec![("value", MagType::Int)])));
    let value = json("[{\"value\": 1.0}]");
    let decoded = json_to_typed_value(&env, &value, &ty).unwrap();
    let Value::List(items) = decoded else {
        panic!("expected typed list");
    };
    let Value::Record(fields) = &items[0] else {
        panic!("expected typed record");
    };
    assert_eq!(fields[0].0, "value");
    assert!(matches!(fields[0].1, Value::Int(1)));
}

#[test]
fn typed_primitives_reject_wrong_json_shapes_recursively() {
    let env = env();
    for (value, ty) in [
        (json("\"true\""), MagType::Bool),
        (json("true"), MagType::String),
        (json("{}"), MagType::Unit),
    ] {
        assert!(json_to_typed_value(&env, &value, &ty).is_err());
    }

    let nested = MagType::List(Box::new(record(vec![
        ("enabled", MagType::Bool),
        ("label", MagType::String),
        ("marker", MagType::Unit),
    ])));
    for value in [
        json("[{\"enabled\":\"true\",\"label\":\"ok\",\"marker\":null}]"),
        json("[{\"enabled\":true,\"label\":7,\"marker\":null}]"),
        json("[{\"enabled\":true,\"label\":\"ok\",\"marker\":false}]"),
    ] {
        assert!(json_to_typed_value(&env, &value, &nested).is_err());
    }
}

#[test]
fn json_values_are_canonicalized_recursively_at_artifact_serialization() {
    let env = env();
    let first = json(r#"{"z":{"b":2,"a":1},"a":0}"#);
    let second = json(r#"{"a":0,"z":{"a":1,"b":2}}"#);
    let first = value_to_json(&env, &Value::JsonValue(first)).unwrap();
    let second = value_to_json(&env, &Value::JsonValue(second)).unwrap();
    assert!(equal_json(&first, &second));
    assert_eq!(render(&first), r#"{"a":0,"z":{"a":1,"b":2}}"#);
}

#[test]
fn non_finite_floats_are_rejected_before_json_serialization() {
    let env = env();
    for value in [f64::NAN, f64::INFINITY, f64::NEG_INFINITY] {
        let error = value_to_json(&env, &Value::Float(float(value))).unwrap_err();
        assert!(error.text().contains("non-finite Float"));
    }
    let written = value_to_json(&env, &Value::Float(float(f64::MAX))).unwrap();
    assert!(equal_json(&written, &json("1.7976931348623157e308")));
}

#[test]
fn canonical_semantic_descriptors_round_trip_and_reject_forged_shape() {
    let descriptor = ConcreteType::Named {
        name: "main.Payload".to_owned(),
        arguments: vec![],
        body: ConcreteNamedBody::Fields {
            fields: vec![("value".to_owned(), ConcreteType::Int)],
        },
    };
    let encoded = concrete_type_to_json(&descriptor);
    assert!(concrete_type_from_json(&encoded).unwrap().equals(&descriptor));

    let mut forged = encoded;
    match &mut forged {
        Json::Object(members) => {
            members.push(("wire".to_owned(), Json::Str("not-semantic".to_owned())))
        }
        other => panic!("{other:?}"),
    }
    assert!(concrete_type_from_json(&forged).is_err());
    let structural_union = json(
        r#"{"kind":"union","items":[{"kind":"primitive","name":"Int"},{"kind":"primitive","name":"String"}]}"#,
    );
    let error = concrete_type_from_json(&structural_union).unwrap_err().text();
    assert!(error.contains("structural union semantic descriptors are unsupported"));
}

#[test]
fn collection_wire_forms_are_canonical_and_reject_duplicates() {
    let env = env();
    let map = Value::MapOf(Arc::new(vec![
        (Value::Int(2), Value::Str("b".to_owned())),
        (Value::Int(1), Value::Str("a".to_owned())),
    ]));
    assert!(equal_json(
        &value_to_json(&env, &map).unwrap(),
        &json(r#"{"$mag":"map","entries":[[1,"a"],[2,"b"]]}"#)
    ));
    let set = Value::SetOf(Arc::new(vec![Value::Int(2), Value::Int(1)]));
    assert!(equal_json(
        &value_to_json(&env, &set).unwrap(),
        &json(r#"{"$mag":"set","items":[1,2]}"#)
    ));

    let duplicate_map = json(r#"{"$mag":"map","entries":[[1,"a"],[1,"b"]]}"#);
    assert!(json_to_typed_value(
        &env,
        &duplicate_map,
        &MagType::MapOf(Box::new(MagType::Int), Box::new(MagType::String))
    )
    .is_err());
    let duplicate_set = json(r#"{"$mag":"set","items":[1,1]}"#);
    assert!(json_to_typed_value(
        &env,
        &duplicate_set,
        &MagType::SetOf(Box::new(MagType::Int))
    )
    .is_err());
}

#[test]
fn typed_records_reject_extra_fields() {
    let ty = record(vec![("value", MagType::Int)]);
    assert!(json_to_typed_value(&env(), &json(r#"{"value": 1, "extra": 2}"#), &ty).is_err());
    assert!(project_typed_value(&env(), &json(r#"{"value": 1, "extra": 2}"#), &ty).is_ok());
}

#[test]
fn documents_render_compactly_and_read_back() {
    let text = r#"{"a":[1,-2,3.5,true,null,"x\ny"],"b":{}}"#;
    let parsed = json(text);
    assert_eq!(render(&parsed), text);
    assert_eq!(render_bytes(&parsed), text.as_bytes());
    assert!(parse_json("{").is_err());
    assert_eq!(render(&canonicalize_json(&json(r#"{"b":1,"a":2}"#))), r#"{"a":2,"b":1}"#);
}

#[test]
fn plain_documents_become_plain_values() {
    let value = json_to_value(&json(r#"{"n":1,"s":"t","l":[true],"u":null}"#));
    let Value::Record(fields) = value else {
        panic!("record expected")
    };
    assert_eq!(fields.len(), 4);
    assert!(matches!(fields[1].1, Value::Int(1)));
}

#[test]
fn integers_read_as_floats_where_floats_are_expected() {
    let read = |text: &str| json_to_typed_value(&env(), &json(text), &MagType::Float);
    for (text, x) in [("3", 3.0), ("-2", -2.0), ("1.25", 1.25), ("18446744073709551615", 18446744073709551615.0)] {
        let Ok(Value::Float(f)) = read(text) else {
            panic!("{text}")
        };
        assert_eq!(f64::from_bits(f.bits), x);
    }
    assert!(read("\"3\"").is_err());
}
