use elucid::ingest::event::{EventContext, EventValue};
use elucid::ingest::line_source::check_line_size;
use elucid::ingest::normalizer::{coerce_timestamp, coerce_value, MemberValue, Normalizer};
use elucid::ingest::schema::{ColumnType, TableField, TableSchema};
use elucid::ingest::stage_error::StageError;
use elucid::json::{JsonObject, JsonValue};

#[derive(Debug, Clone)]
struct TestContext;

impl EventContext for TestContext {
    fn to_json(&self) -> JsonValue {
        JsonValue::Object(JsonObject {
            members: vec![("test".to_owned(), JsonValue::Bool(true))],
        })
    }
}

fn field(name: &str, ty: ColumnType, nullable: bool) -> TableField {
    TableField {
        name: name.to_owned(),
        ty,
        nullable,
    }
}

fn web_access_schema() -> TableSchema {
    TableSchema {
        fields: vec![
            field("@timestamp", ColumnType::Timestamp, false),
            field("host", ColumnType::Utf8, true),
            field("status", ColumnType::Int64, true),
            field("bytes", ColumnType::Uint64, true),
            field("@rest", ColumnType::Utf8, true),
        ],
        time_source: Some("_ts".to_owned()),
    }
}

fn all_types_schema() -> TableSchema {
    TableSchema {
        fields: vec![
            field("@timestamp", ColumnType::Timestamp, false),
            field("s", ColumnType::Utf8, true),
            field("i64", ColumnType::Int64, true),
            field("i32", ColumnType::Int32, true),
            field("u64", ColumnType::Uint64, true),
            field("u32", ColumnType::Uint32, true),
            field("f64", ColumnType::Float64, true),
            field("f32", ColumnType::Float32, true),
            field("b", ColumnType::Bool, true),
            field("@rest", ColumnType::Utf8, true),
        ],
        time_source: Some("ts".to_owned()),
    }
}

fn minimal_schema() -> TableSchema {
    TableSchema {
        fields: vec![
            field("@timestamp", ColumnType::Timestamp, false),
            field("@rest", ColumnType::Utf8, true),
        ],
        time_source: Some("_ts".to_owned()),
    }
}

fn normalize(schema: TableSchema, raw: &str) -> Result<Vec<EventValue>, StageError> {
    let normalizer = Normalizer::new(schema).expect("normalizer");
    normalizer
        .normalize(raw, TestContext)
        .map(|event| event.row.values)
}

fn float_of(value: &EventValue) -> f64 {
    match value {
        EventValue::Float64(text) => text.parse().expect("a numeral"),
        other => panic!("expected Float64, got {other:?}"),
    }
}

#[test]
fn all_column_types_happy_path() {
    let raw = r#"{"ts":"2025-01-01T00:00:00Z","s":"hello","i64":42,"i32":7,"u64":99,"u32":5,"f64":3.125,"f32":2.5,"b":true}"#;
    let v = normalize(all_types_schema(), raw).expect("normalize");

    assert_eq!(v[0], EventValue::Timestamp(1_735_689_600_000));
    assert_eq!(v[1], EventValue::String("hello".to_owned()));
    assert_eq!(v[2], EventValue::Int64(42));
    assert_eq!(v[3], EventValue::Int64(7));
    assert_eq!(v[4], EventValue::UInt64(99));
    assert_eq!(v[5], EventValue::UInt64(5));
    assert!((float_of(&v[6]) - 3.125).abs() < f64::EPSILON);
    assert!((float_of(&v[7]) - 2.5).abs() < f64::EPSILON);
    assert_eq!(v[8], EventValue::Bool(true));
    assert_eq!(v[9], EventValue::Null);
}

#[test]
fn rest_with_unknown_fields() {
    let raw = r#"{"_ts":"2025-01-01T00:00:00Z","extra_a":"wow","extra_b":42}"#;
    let values = normalize(minimal_schema(), raw).expect("normalize");

    match &values[1] {
        EventValue::String(s) => {
            let rest: serde_json::Value = serde_json::from_str(s).expect("json");
            assert_eq!(rest["extra_a"], "wow");
            assert_eq!(rest["extra_b"], 42);
            assert!(rest.get("_ts").is_none());
        }
        other => panic!("expected String for @rest, got {other:?}"),
    }
}

#[test]
fn rest_keeps_nested_values() {
    let raw = r#"{"_ts":1735689600000,"deep":{"a":[1,"x",null,true]},"quote":"a\"b"}"#;
    let values = normalize(minimal_schema(), raw).expect("normalize");
    match &values[1] {
        EventValue::String(s) => {
            let rest: serde_json::Value = serde_json::from_str(s).expect("json");
            assert_eq!(rest["deep"]["a"][1], "x");
            assert_eq!(rest["quote"], "a\"b");
        }
        other => panic!("expected String for @rest, got {other:?}"),
    }
}

#[test]
fn rest_null_when_no_unknowns() {
    let raw = r#"{"_ts":"2025-01-01T00:00:00Z"}"#;
    let values = normalize(minimal_schema(), raw).expect("normalize");
    assert_eq!(values[1], EventValue::Null);
}

#[test]
fn timestamp_rfc3339_string() {
    let raw = r#"{"_ts":"2025-01-01T00:00:00Z"}"#;
    let values = normalize(minimal_schema(), raw).expect("normalize");
    assert_eq!(values[0], EventValue::Timestamp(1_735_689_600_000));
}

#[test]
fn timestamp_epoch_millis() {
    let raw = r#"{"_ts":1735689600000}"#;
    let values = normalize(minimal_schema(), raw).expect("normalize");
    assert_eq!(values[0], EventValue::Timestamp(1_735_689_600_000));
}

#[test]
fn timestamps_without_an_offset_are_read_in_utc() {
    for (text, expected) in [
        ("2025-01-01T00:00:00", 1_735_689_600_000),
        ("2025-01-01T00:00:00.250", 1_735_689_600_250),
        ("2025-01-02", 1_735_776_000_000),
    ] {
        let raw = format!(r#"{{"_ts":"{text}"}}"#);
        let values = normalize(minimal_schema(), &raw).expect("normalize");
        assert_eq!(values[0], EventValue::Timestamp(expected), "{text}");
    }
}

#[test]
fn missing_non_nullable_field_returns_error() {
    let err = normalize(minimal_schema(), r#"{"other":123}"#).unwrap_err();
    assert!(
        matches!(err, StageError::Normalization(ref msg) if msg.contains("@timestamp")),
        "expected Normalization error for @timestamp, got: {err:?}"
    );
}

#[test]
fn bad_timestamp_string_returns_error() {
    let err = normalize(minimal_schema(), r#"{"_ts":"not-a-date"}"#).unwrap_err();
    assert!(
        matches!(err, StageError::Normalization(ref msg) if msg.contains("@timestamp")),
        "expected Normalization error for @timestamp, got: {err:?}"
    );
}

#[test]
fn oversized_line_returns_error() {
    let raw = "hello world";
    let err = check_line_size(raw, 5).unwrap_err();
    assert!(
        matches!(err, StageError::LineTooLarge { size: 11, max: 5 }),
        "expected LineTooLarge, got: {err:?}"
    );
}

#[test]
fn line_within_limit_is_ok() {
    assert!(check_line_size("hello", 10).is_ok());
}

#[test]
fn non_json_returns_parse_error() {
    let err = normalize(minimal_schema(), "not json at all").unwrap_err();
    assert!(
        matches!(err, StageError::Parse(_)),
        "expected Parse error, got: {err:?}"
    );
}

#[test]
fn json_array_returns_parse_error() {
    let err = normalize(minimal_schema(), "[1,2,3]").unwrap_err();
    assert!(
        matches!(err, StageError::Parse(ref msg) if msg.contains("object")),
        "expected Parse error mentioning object, got: {err:?}"
    );
}

#[test]
fn null_for_nullable_column_produces_null() {
    let raw = r#"{"ts":"2025-01-01T00:00:00Z","b":false}"#;
    let values = normalize(all_types_schema(), raw).expect("normalize");

    assert_eq!(values[1], EventValue::Null);
    assert_eq!(values[2], EventValue::Null);
    assert_eq!(values[8], EventValue::Bool(false));
}

#[test]
fn multiple_events_independent() {
    let normalizer = Normalizer::new(minimal_schema()).expect("normalizer");

    let e1 = normalizer
        .normalize(r#"{"_ts":"2025-01-01T00:00:00Z"}"#, TestContext)
        .expect("e1");
    let e2 = normalizer
        .normalize(r#"{"_ts":"2025-01-02T00:00:00Z"}"#, TestContext)
        .expect("e2");

    assert_eq!(e1.row.values[0], EventValue::Timestamp(1_735_689_600_000));
    assert_eq!(e2.row.values[0], EventValue::Timestamp(1_735_776_000_000));
}

#[test]
fn int32_overflow_stored_as_int64() {
    let overflow_value = (i32::MAX as i64) + 1;
    let raw = format!(
        r#"{{"ts":"2025-01-01T00:00:00Z","s":"x","i64":0,"i32":{overflow_value},"u64":0,"u32":0,"f64":0.0,"f32":0.0,"b":false}}"#
    );
    let values = normalize(all_types_schema(), &raw).expect("normalize");
    assert_eq!(values[3], EventValue::Int64(overflow_value));
}

#[test]
fn type_mismatch_for_int64_returns_error() {
    let raw = r#"{"_ts":"2025-01-01T00:00:00Z","status":"not-a-number"}"#;
    let err = normalize(web_access_schema(), raw).unwrap_err();
    assert!(
        matches!(err, StageError::Normalization(ref msg) if msg.contains("status")),
        "expected Normalization error for status, got: {err:?}"
    );
}

#[test]
fn null_for_non_nullable_timestamp_returns_error() {
    let err = normalize(minimal_schema(), r#"{"_ts":null}"#).unwrap_err();
    assert!(
        matches!(err, StageError::Normalization(ref msg) if msg.contains("@timestamp")),
        "expected Normalization error for @timestamp, got: {err:?}"
    );
}

#[test]
fn coerced_members_keep_their_values() {
    let name = "field".to_owned();
    let number = MemberValue::Number("18446744073709551615".to_owned());
    assert_eq!(
        coerce_value(Some(&number), ColumnType::Uint64, true, &name),
        Ok(EventValue::UInt64(u64::MAX))
    );
    assert!(coerce_value(Some(&number), ColumnType::Int64, true, &name).is_err());
    let negative = MemberValue::Number("-1".to_owned());
    assert!(coerce_value(Some(&negative), ColumnType::Uint64, true, &name).is_err());
    assert_eq!(
        coerce_value(Some(&negative), ColumnType::Int64, true, &name),
        Ok(EventValue::Int64(-1))
    );
    assert_eq!(
        coerce_value(None, ColumnType::Int64, true, &name),
        Ok(EventValue::Null)
    );
    assert!(coerce_value(None, ColumnType::Int64, false, &name).is_err());
    assert_eq!(
        coerce_timestamp(Some(&MemberValue::Number("12".to_owned())), true, &name),
        Ok(EventValue::Timestamp(12))
    );
}

#[test]
fn schemas_without_system_columns_have_no_normalizer() {
    let mut schema = minimal_schema();
    schema.fields.truncate(1);
    match Normalizer::new(schema) {
        Err(StageError::Normalization(message)) => assert_eq!(message, "@rest column missing"),
        other => panic!("expected an error, got {other:?}"),
    }
    let schema = TableSchema {
        fields: vec![field("@rest", ColumnType::Utf8, true)],
        time_source: None,
    };
    match Normalizer::new(schema) {
        Err(StageError::Normalization(message)) => assert_eq!(message, "@timestamp column missing"),
        other => panic!("expected an error, got {other:?}"),
    }
}

#[test]
fn values_are_shown_in_messages() {
    let name = "count".to_owned();
    let items = MemberValue::Container("[1,\"a\"]".to_owned());
    assert_eq!(
        coerce_value(Some(&items), ColumnType::Int64, true, &name).err(),
        Some(StageError::Normalization(
            "cannot coerce JSON Array [Number(1), String(\"a\")] to Int64 for field 'count'".to_owned()
        ))
    );
}
