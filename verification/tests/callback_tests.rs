use offtopic_bot::callback::{Callback, DecodeError};

fn round_trip(id: i64) {
    let t = Callback::Offtopic { id };
    let s = t.to_string();
    let back = Callback::from_string(&s).unwrap();
    assert_eq!(back, t);
}

#[test]
fn encode_fixed_form() {
    let t = Callback::Offtopic { id: 12345 };
    assert_eq!(t.to_string(), "{\"Offtopic\":{\"id\":12345}}");
    let n = Callback::Offtopic { id: -7 };
    assert_eq!(n.to_string(), "{\"Offtopic\":{\"id\":-7}}");
    let z = Callback::Offtopic { id: 0 };
    assert_eq!(z.to_string(), "{\"Offtopic\":{\"id\":0}}");
}

#[test]
fn encode_matches_serde_json_object() {
    // The wire form is exactly the canonical JSON of the tagged object.
    let mut inner = serde_json::Map::new();
    inner.insert("id".to_string(), serde_json::Value::from(555i64));
    let mut outer = serde_json::Map::new();
    outer.insert("Offtopic".to_string(), serde_json::Value::Object(inner));
    let expected = serde_json::Value::Object(outer).to_string();
    let t = Callback::Offtopic { id: 555 };
    assert_eq!(t.to_string(), expected);
}

#[test]
fn round_trip_small_values() {
    round_trip(0);
    round_trip(1);
    round_trip(-1);
    round_trip(555);
    round_trip(-123456789);
}

#[test]
fn round_trip_extreme_values() {
    round_trip(i64::MAX);
    round_trip(i64::MIN);
    round_trip(i64::MAX - 1);
    round_trip(i64::MIN + 1);
}

#[test]
fn decode_rejects_malformed() {
    let cases = [
        "",
        "{}",
        "garbage",
        "{\"Offtopic\":{\"id\":}}",
        "{\"Offtopic\":{\"id\":\"5\"}}",
        "{\"Offtopic\":{\"id\":5} }",
        "{ \"Offtopic\":{\"id\":5}}",
        "{\"offtopic\":{\"id\":5}}",
        "{\"Offtopic\":{\"id\":5}}x",
        "{\"Offtopic\":{\"id\":05}}",
        "{\"Offtopic\":{\"id\":-0}}",
        "{\"Offtopic\":{\"id\":+5}}",
        "{\"Offtopic\":{\"id\":5.0}}",
        "{\"Offtopic\":{\"id\":}}",
        "{\"Offtopic\":{\"id\":9223372036854775808}}",
        "{\"Offtopic\":{\"id\":-9223372036854775809}}",
        "{\"Offtopic\":{\"id\":99999999999999999999999999}}",
    ];
    for s in cases.iter() {
        let r = Callback::from_string(&s.to_string());
        assert_eq!(r, Err(DecodeError::Malformed), "input: {}", s);
    }
}

#[test]
fn decode_boundary_values() {
    let max = "{\"Offtopic\":{\"id\":9223372036854775807}}".to_string();
    assert_eq!(
        Callback::from_string(&max).unwrap(),
        Callback::Offtopic { id: i64::MAX }
    );
    let min = "{\"Offtopic\":{\"id\":-9223372036854775808}}".to_string();
    assert_eq!(
        Callback::from_string(&min).unwrap(),
        Callback::Offtopic { id: i64::MIN }
    );
}
