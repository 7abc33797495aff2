use hermes_native::config::{config_from_text, config_yaml_text};
use hermes_native::json::{JsonNumber, JsonValue};

fn same(a: &JsonValue, b: &JsonValue) -> bool {
    match (a, b) {
        (JsonValue::Null, JsonValue::Null) => true,
        (JsonValue::Bool(x), JsonValue::Bool(y)) => x == y,
        (JsonValue::Number(x), JsonValue::Number(y)) => x == y,
        (JsonValue::String(x), JsonValue::String(y)) => x == y,
        (JsonValue::Array(x), JsonValue::Array(y)) => {
            x.len() == y.len() && x.iter().zip(y.iter()).all(|(p, q)| same(p, q))
        }
        (JsonValue::Object(x), JsonValue::Object(y)) => {
            x.len() == y.len()
                && x.iter().zip(y.iter()).all(|((k, p), (l, q))| k == l && same(p, q))
        }
        _ => false,
    }
}

fn member<'a>(v: &'a JsonValue, key: &str) -> &'a JsonValue {
    match v {
        JsonValue::Object(es) => &es.iter().find(|(k, _)| k == key).unwrap().1,
        _ => panic!("not an object"),
    }
}

const SAMPLE: &str = "model: gpt-4o\nport: 8080\nlist: [x, 2.5, -3]\nnested:\n  flag: true\n  none: null\n";

#[test]
fn config_missing_file_is_empty_object() {
    match config_from_text(None) {
        Ok(JsonValue::Object(es)) => assert!(es.is_empty()),
        _ => panic!("expected the empty object"),
    }
}

#[test]
fn config_yaml_read_as_json_values() {
    let v = config_from_text(Some(SAMPLE)).unwrap();
    match &v {
        JsonValue::Object(es) => {
            let keys: Vec<&str> = es.iter().map(|(k, _)| k.as_str()).collect();
            assert_eq!(keys, vec!["list", "model", "nested", "port"]);
        }
        _ => panic!("expected an object"),
    }
    assert!(same(member(&v, "model"), &JsonValue::String("gpt-4o".to_string())));
    assert!(same(member(&v, "port"), &JsonValue::Number(JsonNumber::PosInt(8080))));
    assert!(same(
        member(&v, "list"),
        &JsonValue::Array(vec![
            JsonValue::String("x".to_string()),
            JsonValue::Number(JsonNumber::Float("2.5".to_string())),
            JsonValue::Number(JsonNumber::NegInt(-3)),
        ])
    ));
    let nested = member(&v, "nested");
    assert!(same(member(nested, "flag"), &JsonValue::Bool(true)));
    assert!(same(member(nested, "none"), &JsonValue::Null));
}

#[test]
fn config_invalid_yaml_is_error() {
    let r = config_from_text(Some("a: [1, 2\n"));
    match r {
        Err(e) => assert!(!e.is_empty()),
        Ok(_) => panic!("expected an error"),
    }
}

#[test]
fn config_written_as_yaml() {
    let v = JsonValue::Object(vec![
        ("model".to_string(), JsonValue::String("gpt-4o".to_string())),
        ("port".to_string(), JsonValue::Number(JsonNumber::PosInt(8080))),
    ]);
    let text = config_yaml_text(&v).unwrap();
    assert_eq!(text, "model: gpt-4o\nport: 8080\n");
}

#[test]
fn config_save_then_read_round_trip() {
    let v = config_from_text(Some(SAMPLE)).unwrap();
    let text = config_yaml_text(&v).unwrap();
    assert_ne!(text, SAMPLE);
    let back = config_from_text(Some(&text)).unwrap();
    assert!(same(&v, &back));
}
