use cw_auth_middleware::value::{deep_partial_match, Value};

fn s(text: &str) -> Value {
    Value::String(text.to_string())
}

fn num(n: u64) -> Value {
    Value::Number(n)
}

fn arr(items: Vec<Value>) -> Value {
    Value::Array(items)
}

fn obj(entries: Vec<(&str, Value)>) -> Value {
    Value::Object(entries.into_iter().map(|(k, v)| (k.to_string(), v)).collect())
}

fn empty() -> Value {
    obj(vec![])
}

/// The structural form of a bank send of `amount` `denom` to `to`.
fn bank_send(to: &str, amount: u128, denom: &str) -> Value {
    obj(vec![(
        "bank",
        obj(vec![(
            "send",
            obj(vec![
                ("to_address", s(to)),
                (
                    "amount",
                    arr(vec![obj(vec![("denom", s(denom)), ("amount", Value::U128(amount))])]),
                ),
            ]),
        )]),
    )])
}

#[test]
fn test_deep_partial_match_simple() {
    let msg = bank_send("you", 1015, "earth");

    // Comparing a message to a partial pattern
    assert_eq!(deep_partial_match(&msg, &obj(vec![("bank", empty())])), true);

    // Non-matching messages fail
    assert_eq!(
        deep_partial_match(&obj(vec![("test", num(1))]), &obj(vec![("bank", empty())])),
        false
    );

    // Partial messages work
    assert_eq!(
        deep_partial_match(
            &obj(vec![("bank", arr(vec![num(1), num(2), num(3)]))]),
            &obj(vec![("bank", empty())])
        ),
        true
    );

    // Arrays compare position by position
    assert_eq!(
        deep_partial_match(
            &obj(vec![("bank", arr(vec![num(1), num(3), num(2)]))]),
            &obj(vec![("bank", arr(vec![num(1), num(2), num(3)]))]),
        ),
        false
    );
    assert_eq!(
        deep_partial_match(
            &obj(vec![("bank", arr(vec![num(1), num(2), num(3)]))]),
            &obj(vec![("bank", arr(vec![num(1), num(2), num(3)]))]),
        ),
        true
    );

    // The partial comparison only works in one direction
    assert_eq!(
        deep_partial_match(
            &obj(vec![("bank", empty())]),
            &obj(vec![("bank", arr(vec![num(1), num(2), num(3)]))])
        ),
        false
    );

    // The partial comparison works with any value type
    assert_eq!(
        deep_partial_match(
            &obj(vec![("send", obj(vec![("to_address", empty())]))]),
            &obj(vec![("send", obj(vec![("to_address", s("test"))]))])
        ),
        false
    );
    assert_eq!(
        deep_partial_match(
            &obj(vec![("send", obj(vec![("to_address", s("test"))]))]),
            &obj(vec![("send", obj(vec![("to_address", empty())]))]),
        ),
        true
    );
}

fn to_an_address_pattern() -> Value {
    obj(vec![(
        "bank",
        obj(vec![("send", obj(vec![("to_address", s("an_address")), ("amount", empty())]))]),
    )])
}

#[test]
fn test_deep_partial_match_complex() {
    let msg = bank_send("an_address", 1015, "earth");
    assert_eq!(deep_partial_match(&msg, &to_an_address_pattern()), true);

    // Changing the amount
    let msg = bank_send("an_address", 1234, "juno");
    assert_eq!(deep_partial_match(&msg, &to_an_address_pattern()), true);

    // Changing the address
    let msg = bank_send("other_addr", 1234, "juno");
    assert_eq!(deep_partial_match(&msg, &to_an_address_pattern()), false);
}

#[test]
fn empty_object_pattern_matches_every_variant() {
    let values = || {
        vec![
            Value::Null,
            Value::Bool(false),
            Value::U128(7),
            num(7),
            s("x"),
            arr(vec![num(1)]),
            arr(vec![]),
            empty(),
            obj(vec![("k", num(1))]),
        ]
    };
    for v in values() {
        assert!(deep_partial_match(&v, &empty()));
    }
    // and at a nested path
    for v in values() {
        assert!(deep_partial_match(&obj(vec![("k", v)]), &obj(vec![("k", empty())])));
    }
}

#[test]
fn wildcard_entry_still_requires_its_key() {
    assert!(!deep_partial_match(&obj(vec![("other", num(1))]), &obj(vec![("k", empty())])));
    assert!(!deep_partial_match(&num(1), &obj(vec![("k", empty())])));
}

#[test]
fn matching_is_directional() {
    let a = obj(vec![("k", empty())]);
    let b = obj(vec![("k", s("x"))]);
    assert!(deep_partial_match(&b, &a));
    assert!(!deep_partial_match(&a, &b));
}

#[test]
fn array_matching_is_positional_and_length_exact() {
    let p = arr(vec![num(1), num(2), num(3)]);
    assert!(deep_partial_match(&arr(vec![num(1), num(2), num(3)]), &p));
    assert!(!deep_partial_match(&arr(vec![num(1), num(3), num(2)]), &p));
    assert!(!deep_partial_match(&arr(vec![num(1), num(2)]), &p));
    assert!(!deep_partial_match(&arr(vec![num(1), num(2), num(3), num(4)]), &p));
    assert!(!deep_partial_match(&obj(vec![("0", num(1))]), &p));
    // elements are themselves patterns
    assert!(deep_partial_match(&arr(vec![num(1), s("y")]), &arr(vec![num(1), empty()])));
}

#[test]
fn extra_observed_keys_are_ignored() {
    let v = obj(vec![("a", num(1)), ("b", num(2))]);
    assert!(deep_partial_match(&v, &obj(vec![("b", num(2))])));
    assert!(!deep_partial_match(&v, &obj(vec![("b", num(3))])));
    assert!(!deep_partial_match(&obj(vec![("b", num(2))]), &v));
}

#[test]
fn scalars_compare_by_variant_and_value() {
    assert!(deep_partial_match(&Value::Null, &Value::Null));
    assert!(deep_partial_match(&Value::Bool(true), &Value::Bool(true)));
    assert!(!deep_partial_match(&Value::Bool(true), &Value::Bool(false)));
    assert!(deep_partial_match(&Value::U128(5), &Value::U128(5)));
    assert!(!deep_partial_match(&Value::U128(5), &num(5)));
    assert!(!deep_partial_match(&num(5), &Value::U128(5)));
    assert!(!deep_partial_match(&s("5"), &num(5)));
    assert!(!deep_partial_match(&s("a"), &s("b")));
    assert!(!deep_partial_match(&Value::Null, &s("null")));
    assert!(!deep_partial_match(&arr(vec![]), &Value::Null));
}
