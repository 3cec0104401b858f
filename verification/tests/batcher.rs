use elucid::ingest::batcher::{build_batch, Batcher, ColumnBatch};
use elucid::ingest::event::{Event, EventContext, EventRow, EventValue};
use elucid::ingest::schema::{ColumnType, TableField, TableSchema};
use elucid::ingest::stage_error::StageError;
use elucid::ingestion::materialize::DataColumn;
use elucid::json::{JsonObject, JsonValue};

#[derive(Debug, Clone)]
struct TestContext;

impl EventContext for TestContext {
    fn to_json(&self) -> JsonValue {
        JsonValue::Object(JsonObject {
            members: vec![("test".to_owned(), JsonValue::Bool(true))],
        })
    }
}

fn field(name: &str, ty: ColumnType, nullable: bool) -> TableField {
    TableField {
        name: name.to_owned(),
        ty,
        nullable,
    }
}

fn all_types_schema() -> TableSchema {
    TableSchema {
        fields: vec![
            field("@timestamp", ColumnType::Timestamp, false),
            field("s", ColumnType::Utf8, true),
            field("i64", ColumnType::Int64, true),
            field("i32", ColumnType::Int32, true),
            field("u64", ColumnType::Uint64, true),
            field("u32", ColumnType::Uint32, true),
            field("f64", ColumnType::Float64, true),
            field("f32", ColumnType::Float32, true),
            field("b", ColumnType::Bool, true),
            field("@rest", ColumnType::Utf8, true),
        ],
        time_source: Some("ts".to_owned()),
    }
}

fn minimal_schema() -> TableSchema {
    TableSchema {
        fields: vec![
            field("@timestamp", ColumnType::Timestamp, false),
            field("@rest", ColumnType::Utf8, true),
        ],
        time_source: Some("_ts".to_owned()),
    }
}

fn make_event(values: Vec<EventValue>) -> Event<TestContext> {
    Event {
        row: EventRow { values },
        context: TestContext,
    }
}

fn float(text: &str) -> EventValue {
    EventValue::Float64(text.to_owned())
}

fn text(value: &str) -> EventValue {
    EventValue::String(value.to_owned())
}

fn texts(values: &[Option<&str>]) -> DataColumn {
    DataColumn::Utf8(values.iter().map(|value| value.map(str::to_owned)).collect())
}

fn error_message(result: Result<ColumnBatch, StageError>) -> String {
    match result {
        Err(StageError::Normalization(message)) => message,
        other => panic!("expected a normalization error, got {other:?}"),
    }
}

#[test]
fn single_row_all_types() {
    let schema = all_types_schema();
    let events = vec![make_event(vec![
        EventValue::Timestamp(1_735_689_600_000),
        text("hello"),
        EventValue::Int64(42),
        EventValue::Int64(7),
        EventValue::UInt64(99),
        EventValue::UInt64(5),
        float("3.14"),
        float("2.5"),
        EventValue::Bool(true),
        EventValue::Null,
    ])];

    let batch = build_batch(events, &schema).expect("build_batch");
    assert_eq!(batch.row_count, 1);
    assert_eq!(batch.columns[0], DataColumn::Datetime(vec![Some(1_735_689_600_000)]));
    assert_eq!(batch.columns[1], texts(&[Some("hello")]));
    assert_eq!(batch.columns[2], DataColumn::Int64(vec![Some(42)]));
    assert_eq!(batch.columns[3], DataColumn::Int32(vec![Some(7)]));
    assert_eq!(batch.columns[4], DataColumn::UInt64(vec![Some(99)]));
    assert_eq!(batch.columns[5], DataColumn::UInt32(vec![Some(5)]));
    assert_eq!(batch.columns[6], DataColumn::Float64(vec![Some("3.14".to_owned())]));
    assert_eq!(batch.columns[7], DataColumn::Float32(vec![Some("2.5".to_owned())]));
    assert_eq!(batch.columns[8], DataColumn::Bool(vec![Some(true)]));
    assert_eq!(batch.columns[9], texts(&[None]));
}

#[test]
fn multiple_rows_correct_arrays() {
    let schema = minimal_schema();
    let events = vec![
        make_event(vec![EventValue::Timestamp(100), EventValue::Null]),
        make_event(vec![EventValue::Timestamp(200), EventValue::Null]),
        make_event(vec![EventValue::Timestamp(300), EventValue::Null]),
    ];

    let batch = build_batch(events, &schema).expect("build_batch");
    assert_eq!(batch.row_count, 3);
    assert_eq!(
        batch.columns[0],
        DataColumn::Datetime(vec![Some(100), Some(200), Some(300)])
    );
}

#[test]
fn null_in_nullable_column() {
    let schema = all_types_schema();
    let events = vec![make_event(vec![
        EventValue::Timestamp(1000),
        EventValue::Null,
        EventValue::Null,
        EventValue::Null,
        EventValue::Null,
        EventValue::Null,
        EventValue::Null,
        EventValue::Null,
        EventValue::Null,
        EventValue::Null,
    ])];

    let batch = build_batch(events, &schema).expect("build_batch");
    assert_eq!(batch.row_count, 1);
    assert_eq!(batch.columns[1], texts(&[None]));
    assert_eq!(batch.columns[2], DataColumn::Int64(vec![None]));
    assert_eq!(batch.columns[8], DataColumn::Bool(vec![None]));
}

#[test]
fn int32_overflow_returns_error() {
    let schema = all_types_schema();
    let overflow_val = (i32::MAX as i64) + 1;
    let events = vec![make_event(vec![
        EventValue::Timestamp(1000),
        text("x"),
        EventValue::Int64(0),
        EventValue::Int64(overflow_val),
        EventValue::UInt64(0),
        EventValue::UInt64(0),
        float("0.0"),
        float("0.0"),
        EventValue::Bool(false),
        EventValue::Null,
    ])];

    let message = error_message(build_batch(events, &schema));
    assert!(message.contains("overflows Int32"), "got: {message}");
    assert_eq!(message, "value 2147483648 overflows Int32 range for field 'i32'");
}

#[test]
fn uint32_overflow_returns_error() {
    let schema = all_types_schema();
    let overflow_val = (u32::MAX as u64) + 1;
    let events = vec![make_event(vec![
        EventValue::Timestamp(1000),
        text("x"),
        EventValue::Int64(0),
        EventValue::Int64(0),
        EventValue::UInt64(0),
        EventValue::UInt64(overflow_val),
        float("0.0"),
        float("0.0"),
        EventValue::Bool(false),
        EventValue::Null,
    ])];

    let message = error_message(build_batch(events, &schema));
    assert!(message.contains("overflows Uint32"), "got: {message}");
    assert_eq!(message, "value 4294967296 overflows Uint32 range for field 'u32'");
}

#[test]
fn a_null_against_its_declaration_makes_no_batch() {
    let schema = minimal_schema();
    let events = vec![
        make_event(vec![EventValue::Timestamp(100), EventValue::Null]),
        make_event(vec![EventValue::Null, EventValue::Null]),
    ];
    assert_eq!(
        build_batch(events, &schema),
        Err(StageError::Write(
            "failed to build RecordBatch: Invalid argument error: Column '@timestamp' is declared \
             as non-nullable but contains null values"
                .to_owned()
        ))
    );
    let short = vec![make_event(vec![])];
    assert!(matches!(build_batch(short, &schema), Err(StageError::Write(_))));
    let mut batcher: Batcher<TestContext> = Batcher::new(minimal_schema(), 1);
    let refused = batcher.push(make_event(vec![EventValue::Null, EventValue::Null]));
    assert!(matches!(refused, Err(StageError::Write(_))));
}

#[test]
fn a_type_mismatch_comes_before_a_null_against_its_declaration() {
    let schema = TableSchema {
        fields: vec![
            field("first", ColumnType::Int64, false),
            field("second", ColumnType::Bool, true),
        ],
        time_source: None,
    };
    let events = vec![make_event(vec![EventValue::Null, EventValue::Int64(1)])];
    assert_eq!(
        error_message(build_batch(events, &schema)),
        "type mismatch for column index 1: expected Bool, got Int64(1)"
    );
}

#[test]
fn a_mismatched_float_is_shown_by_its_value() {
    let schema = TableSchema {
        fields: vec![field("flag", ColumnType::Bool, true), field("at", ColumnType::Int32, true)],
        time_source: None,
    };
    let refused = |values: Vec<EventValue>| {
        build_batch(vec![make_event(values)], &schema).expect_err("a mismatch")
    };
    for (numeral, expected) in [
        ("3", "type mismatch for column index 0: expected Bool, got Float64(3.0)"),
        ("1.50", "type mismatch for column index 0: expected Bool, got Float64(1.5)"),
        ("1e16", "type mismatch for column index 0: expected Bool, got Float64(1e16)"),
    ] {
        let error = refused(vec![float(numeral), EventValue::Null]);
        let value: f64 = error.unshown_float().expect("a float").parse().expect("a numeral");
        let error = error.show_float(&format!("{value:?}"));
        assert_eq!(error, StageError::Normalization(expected.to_owned()));
        assert_eq!(error.to_string(), format!("normalization error: {expected}"));
    }
    let error = refused(vec![EventValue::Null, float("0.5")]).show_float("0.5");
    assert_eq!(
        error,
        StageError::Normalization(
            "type mismatch for field 'at': expected Int64, got Float64(0.5)".to_owned()
        )
    );
    let error = refused(vec![EventValue::Bool(true), EventValue::Bool(false)]);
    assert!(error.unshown_float().is_none());
    assert_eq!(
        error.show_float("0.5").to_string(),
        "normalization error: type mismatch for field 'at': expected Int64, got Bool(false)"
    );
}

#[test]
fn a_batch_has_a_column_and_its_rest_is_text() {
    let none = TableSchema { fields: vec![], time_source: None };
    assert_eq!(
        build_batch(vec![make_event(vec![])], &none),
        Err(StageError::Write(
            "failed to build RecordBatch: Invalid argument error: must either specify a row count \
             or at least one column"
                .to_owned()
        ))
    );
    let timed = TableSchema {
        fields: vec![
            field("x", ColumnType::Int64, true),
            field("@rest", ColumnType::Timestamp, true),
        ],
        time_source: None,
    };
    assert_eq!(
        build_batch(vec![make_event(vec![])], &timed),
        Err(StageError::Write(
            "failed to build RecordBatch: Invalid argument error: column types must match schema \
             types, expected Timestamp(ms, \"UTC\") but found Utf8 at column index 1"
                .to_owned()
        ))
    );
}

#[test]
fn empty_input_returns_zero_row_batch() {
    let schema = minimal_schema();
    let events: Vec<Event<TestContext>> = vec![];

    let batch = build_batch(events, &schema).expect("build_batch");
    assert_eq!(batch.row_count, 0);
    assert_eq!(batch.columns.len(), schema.fields.len());
}

#[test]
fn rest_column_carries_values() {
    let schema = minimal_schema();
    let events = vec![
        make_event(vec![EventValue::Timestamp(100), text(r#"{"extra":42}"#)]),
        make_event(vec![EventValue::Timestamp(200), EventValue::Null]),
        make_event(vec![EventValue::Timestamp(300), text(r#"{"foo":"bar"}"#)]),
    ];

    let batch = build_batch(events, &schema).expect("build_batch");
    assert_eq!(
        batch.columns[1],
        texts(&[Some(r#"{"extra":42}"#), None, Some(r#"{"foo":"bar"}"#)])
    );
}

#[test]
fn rest_column_takes_no_other_value() {
    let schema = minimal_schema();
    let events = vec![make_event(vec![EventValue::Timestamp(1), EventValue::Int64(5)])];
    let batch = build_batch(events, &schema).expect("build_batch");
    assert_eq!(batch.columns[1], texts(&[None]));
}

#[test]
fn timestamp_arrays_have_utc_timezone() {
    let schema = minimal_schema();
    let events = vec![make_event(vec![
        EventValue::Timestamp(1_735_689_600_000),
        EventValue::Null,
    ])];

    let batch = build_batch(events, &schema).expect("build_batch");
    assert_eq!(schema.fields[0].ty, ColumnType::Timestamp);
    assert_eq!(batch.columns[0], DataColumn::Datetime(vec![Some(1_735_689_600_000)]));
}

#[test]
fn mixed_nulls_and_values_in_same_column() {
    let schema = all_types_schema();
    let events = vec![
        make_event(vec![
            EventValue::Timestamp(100),
            text("a"),
            EventValue::Int64(1),
            EventValue::Int64(10),
            EventValue::UInt64(100),
            EventValue::UInt64(1000),
            float("1.0"),
            float("10.0"),
            EventValue::Bool(true),
            EventValue::Null,
        ]),
        make_event(vec![
            EventValue::Timestamp(200),
            EventValue::Null,
            EventValue::Null,
            EventValue::Null,
            EventValue::Null,
            EventValue::Null,
            EventValue::Null,
            EventValue::Null,
            EventValue::Null,
            EventValue::Null,
        ]),
        make_event(vec![
            EventValue::Timestamp(300),
            text("b"),
            EventValue::Null,
            EventValue::Int64(30),
            EventValue::Null,
            EventValue::UInt64(3000),
            EventValue::Null,
            float("30.0"),
            EventValue::Bool(false),
            EventValue::Null,
        ]),
    ];

    let batch = build_batch(events, &schema).expect("build_batch");
    assert_eq!(batch.row_count, 3);
    assert_eq!(batch.columns[1], texts(&[Some("a"), None, Some("b")]));
    assert_eq!(batch.columns[2], DataColumn::Int64(vec![Some(1), None, None]));
    assert_eq!(batch.columns[3], DataColumn::Int32(vec![Some(10), None, Some(30)]));
    assert_eq!(
        batch.columns[8],
        DataColumn::Bool(vec![Some(true), None, Some(false)])
    );
}

#[test]
fn type_mismatch_returns_error() {
    let schema = all_types_schema();
    let events = vec![make_event(vec![
        EventValue::Timestamp(1000),
        text("x"),
        text("not_an_int"),
        EventValue::Int64(0),
        EventValue::UInt64(0),
        EventValue::UInt64(0),
        float("0.0"),
        float("0.0"),
        EventValue::Bool(false),
        EventValue::Null,
    ])];

    let message = error_message(build_batch(events, &schema));
    assert!(message.contains("type mismatch"), "got: {message}");
    assert_eq!(
        message,
        "type mismatch for column index 2: expected Int64, got String(\"not_an_int\")"
    );
}

#[test]
fn mismatches_name_the_column_or_its_place() {
    let timestamp = build_batch(
        vec![make_event(vec![EventValue::Bool(true), EventValue::Null])],
        &minimal_schema(),
    );
    assert_eq!(
        error_message(timestamp),
        "type mismatch for field '@timestamp': expected Timestamp, got Bool(true)"
    );

    let mut values: Vec<EventValue> = Vec::new();
    values.push(EventValue::Timestamp(0));
    values.push(EventValue::Int64(-3));
    assert_eq!(
        error_message(build_batch(vec![make_event(values)], &all_types_schema())),
        "type mismatch for column index 1: expected String, got Int64(-3)"
    );
}

#[test]
fn short_rows_are_padded_with_nulls() {
    let batch = build_batch(
        vec![make_event(vec![EventValue::Timestamp(7)])],
        &minimal_schema(),
    )
    .expect("build_batch");
    assert_eq!(batch.columns[1], texts(&[None]));
}

fn batcher_event(ts: i64) -> Event<TestContext> {
    make_event(vec![EventValue::Timestamp(ts), EventValue::Null])
}

#[test]
fn push_returns_none_until_full() {
    let capacity = 5;
    let mut batcher = Batcher::new(minimal_schema(), capacity);

    for i in 0..capacity - 1 {
        let result = batcher.push(batcher_event(i as i64)).expect("push");
        assert!(
            result.is_none(),
            "push {i} should return None (not yet at capacity)"
        );
    }
}

#[test]
fn push_returns_batch_at_capacity() {
    let capacity = 3;
    let mut batcher = Batcher::new(minimal_schema(), capacity);

    let r0 = batcher.push(batcher_event(100)).expect("push 0");
    assert!(r0.is_none());
    let r1 = batcher.push(batcher_event(200)).expect("push 1");
    assert!(r1.is_none());

    let r2 = batcher.push(batcher_event(300)).expect("push 2");
    let batch = r2.expect("should return Some at capacity");
    assert_eq!(batch.row_count, capacity);
}

#[test]
fn flush_returns_remaining() {
    let capacity = 10;
    let mut batcher = Batcher::new(minimal_schema(), capacity);

    batcher.push(batcher_event(1)).expect("push");
    batcher.push(batcher_event(2)).expect("push");
    batcher.push(batcher_event(3)).expect("push");

    let batch = batcher.flush().expect("flush").expect("should have batch");
    assert_eq!(batch.row_count, 3);
}

#[test]
fn flush_returns_none_when_empty() {
    let mut batcher: Batcher<TestContext> = Batcher::new(minimal_schema(), 5);
    assert!(batcher.flush().expect("flush").is_none());
}

#[test]
fn push_then_flush_works() {
    let capacity = 2;
    let mut batcher = Batcher::new(minimal_schema(), capacity);

    let r0 = batcher.push(batcher_event(10)).expect("push 0");
    assert!(r0.is_none());

    let r1 = batcher.push(batcher_event(20)).expect("push 1");
    let batch = r1.expect("should be Some");
    assert_eq!(batch.row_count, 2);

    let flush_result = batcher.flush().expect("flush");
    assert!(
        flush_result.is_none(),
        "buffer should be empty after batch was taken"
    );
}
