//! The canonical text codec: round trips, exact canonical texts, agreement
//! with serde_json's pretty printing, and rejection of non-canonical text.
use exceptional::Accumulator;
use exceptional::Executable;
use exceptional::SomeImportantAction;
use exceptional::decimal::u64_to_decimal;

#[test]
fn round_trip_operation() {
    let v = SomeImportantAction { var_1: 42, var_2: 4294967295 };
    let text = v.encode().expect("encodable");
    let w = SomeImportantAction::decode(text.as_str()).expect("canonical");
    assert_eq!(w, v);
}

#[test]
fn round_trip_arguments() {
    let a = (0u32, 4294967295u32);
    let text = SomeImportantAction::encode_arguments(&a).expect("encodable");
    let b = SomeImportantAction::decode_arguments(text.as_str()).expect("canonical");
    assert_eq!(b, a);
}

#[test]
fn round_trip_accumulator() {
    let v = Accumulator { total: 1000000 };
    let text = v.encode().expect("encodable");
    let w = Accumulator::decode(text.as_str()).expect("canonical");
    assert_eq!(w, v);
}

#[test]
fn round_trip_through_the_generic_law() {
    let v = SomeImportantAction { var_1: 1, var_2: 2 };
    assert_eq!(exceptional::executable::encode_then_decode(&v), Some(v));
    let acc = Accumulator { total: 0 };
    assert_eq!(exceptional::executable::encode_then_decode(&acc), Some(acc));
    let args = (3u32, 7u32);
    assert_eq!(
        exceptional::executable::encode_then_decode_arguments::<SomeImportantAction>(&args),
        Some(args)
    );
}

#[test]
fn encode_produces_the_canonical_text() {
    let v = SomeImportantAction { var_1: 0, var_2: 0 };
    assert_eq!(v.encode().unwrap(), "{\n  \"var_1\": 0,\n  \"var_2\": 0\n}");
    let args = SomeImportantAction::encode_arguments(&(3, 0)).unwrap();
    assert_eq!(args, "[\n  3,\n  0\n]");
    let acc = Accumulator { total: 5 };
    assert_eq!(acc.encode().unwrap(), "{\n  \"total\": 5\n}");
}

#[test]
fn encoding_agrees_with_serde_json_pretty() {
    let mut map = serde_json::Map::new();
    map.insert(String::from("var_1"), serde_json::Value::from(7u32));
    map.insert(String::from("var_2"), serde_json::Value::from(1234567u32));
    let object = serde_json::Value::Object(map);
    let v = SomeImportantAction { var_1: 7, var_2: 1234567 };
    assert_eq!(v.encode().unwrap(), serde_json::to_string_pretty(&object).unwrap());

    let array = serde_json::Value::Array(vec![
        serde_json::Value::from(2u32),
        serde_json::Value::from(0u32),
    ]);
    assert_eq!(
        SomeImportantAction::encode_arguments(&(2, 0)).unwrap(),
        serde_json::to_string_pretty(&array).unwrap()
    );
}

#[test]
fn decode_rejects_malformed_text() {
    assert!(SomeImportantAction::decode("garbage").is_err());
    assert!(SomeImportantAction::decode("").is_err());
    assert!(SomeImportantAction::decode("{\n  \"var_1\": 01,\n  \"var_2\": 0\n}").is_err());
    assert!(SomeImportantAction::decode("{\n  \"var_1\": 4294967296,\n  \"var_2\": 0\n}").is_err());
    assert!(SomeImportantAction::decode("{\n  \"var_1\": 0,\n  \"var_2\": 0\n} ").is_err());
    assert!(SomeImportantAction::decode("{\n  \"var_1\": 0,\n  \"var_2\": 0}").is_err());
    assert!(Accumulator::decode("{\n  \"total\": -1\n}").is_err());
}

#[test]
fn decode_accepts_the_largest_value() {
    let w = SomeImportantAction::decode("{\n  \"var_1\": 4294967295,\n  \"var_2\": 0\n}").unwrap();
    assert_eq!(w, SomeImportantAction { var_1: 4294967295, var_2: 0 });
}

#[test]
fn decode_arguments_rejects_malformed_text() {
    assert_eq!(
        SomeImportantAction::decode_arguments("[\n  2,\n  0\n]").unwrap(),
        (2, 0)
    );
    assert!(SomeImportantAction::decode_arguments("[\n  2,\n  0]").is_err());
    assert!(SomeImportantAction::decode_arguments("[2, 0]").is_err());
}

#[test]
fn decimal_rendering_is_canonical() {
    assert_eq!(u64_to_decimal(0), "0");
    assert_eq!(u64_to_decimal(9), "9");
    assert_eq!(u64_to_decimal(10), "10");
    assert_eq!(u64_to_decimal(1539761233543), "1539761233543");
    assert_eq!(u64_to_decimal(18446744073709551615), "18446744073709551615");
}
