use chia_query::drift::{diff_shapes, shape_of};
use chia_query::json::{Member, Number, Value};

fn object(members: Vec<(&str, Value)>) -> Value {
    Value::Object(members.into_iter().map(|(key, value)| Member::new(key, value)).collect())
}

fn number(n: u64) -> Value {
    Value::number(n)
}

fn text(s: &str) -> Value {
    Value::text(s)
}

#[test]
fn shape_discards_scalar_values_but_keeps_keys_and_types() {
    let response = object(vec![
        ("difficulty", number(2656)),
        ("average_block_time", Value::Number(Number::Real("19.5".to_string()))),
        ("network_name", text("mainnet")),
        ("initialized", Value::Bool(true)),
        ("node_id", Value::Null),
    ]);
    assert_eq!(
        shape_of(&response),
        object(vec![
            ("difficulty", text("integer")),
            ("average_block_time", text("number")),
            ("network_name", text("string")),
            ("initialized", text("boolean")),
            ("node_id", text("null")),
        ])
    );
}

#[test]
fn a_negative_integer_is_an_integer() {
    assert_eq!(shape_of(&Value::Number(Number::NegInt(-1))), text("integer"));
}

#[test]
fn shape_samples_array_element() {
    let response = object(vec![(
        "coin_records",
        Value::Array(vec![
            object(vec![("amount", number(100))]),
            object(vec![("amount", number(200))]),
        ]),
    )]);
    assert_eq!(
        shape_of(&response),
        object(vec![(
            "coin_records",
            Value::Array(vec![object(vec![("amount", text("integer"))])])
        )])
    );
}

#[test]
fn identical_shapes_show_no_drift() {
    let a = shape_of(&object(vec![(
        "blockchain_state",
        object(vec![("difficulty", number(100))]),
    )]));
    let b = shape_of(&object(vec![(
        "blockchain_state",
        object(vec![("difficulty", number(999))]),
    )]));
    assert!(diff_shapes("get_blockchain_state", &a, &b).is_empty());
}

#[test]
fn detects_removed_key() {
    let base = shape_of(&object(vec![("a", number(1)), ("b", number(2))]));
    let cur = shape_of(&object(vec![("a", number(1))]));
    let drift = diff_shapes("ep", &base, &cur);
    assert_eq!(drift, vec!["ep.b: key removed"]);
}

#[test]
fn detects_added_key() {
    let base = shape_of(&object(vec![("a", number(1))]));
    let cur = shape_of(&object(vec![("a", number(1)), ("c", number(3))]));
    let drift = diff_shapes("ep", &base, &cur);
    assert_eq!(drift, vec!["ep.c: key added"]);
}

#[test]
fn detects_type_flip() {
    let base = shape_of(&object(vec![("amount", number(100))]));
    let cur = shape_of(&object(vec![("amount", text("100"))]));
    let drift = diff_shapes("ep", &base, &cur);
    assert_eq!(drift, vec!["ep.amount: type changed integer -> string"]);
}

#[test]
fn detects_structure_change() {
    let base = shape_of(&object(vec![("x", object(vec![("y", number(1))]))]));
    let cur = shape_of(&object(vec![("x", number(1))]));
    let drift = diff_shapes("ep", &base, &cur);
    assert_eq!(drift, vec!["ep.x: structure changed object -> scalar"]);
}

#[test]
fn recurses_into_arrays() {
    let base = shape_of(&object(vec![(
        "items",
        Value::Array(vec![object(vec![("amount", number(1))])]),
    )]));
    let cur = shape_of(&object(vec![(
        "items",
        Value::Array(vec![object(vec![("amount", text("1"))])]),
    )]));
    let drift = diff_shapes("ep", &base, &cur);
    assert_eq!(
        drift,
        vec!["ep.items[].amount: type changed integer -> string"]
    );
}

#[test]
fn empty_array_is_not_drift() {
    let base = shape_of(&object(vec![(
        "items",
        Value::Array(vec![object(vec![("amount", number(1))])]),
    )]));
    let cur = shape_of(&object(vec![("items", Value::Array(vec![]))]));
    assert!(diff_shapes("ep", &base, &cur).is_empty());
}

#[test]
fn mutated_snapshot_is_detected() {
    let live = shape_of(&object(vec![(
        "get_network_info",
        object(vec![
            ("network_name", text("mainnet")),
            ("network_prefix", text("xch")),
            ("success", Value::Bool(true)),
        ]),
    )]));
    let mutated = object(vec![(
        "get_network_info",
        object(vec![
            ("address_prefix", text("string")),
            ("network_name", text("string")),
            ("success", text("boolean")),
        ]),
    )]);

    let drift = diff_shapes("", &live, &mutated);
    assert!(!drift.is_empty());
    assert!(drift
        .iter()
        .any(|d| d.contains("network_prefix: key removed")));
    assert!(drift
        .iter()
        .any(|d| d.contains("address_prefix: key added")));
}
