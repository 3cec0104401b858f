use elucid::catalog::{
    EventTimeFormat, EventTimeMapping, Field, FieldMapping, FieldRole, IngestionProfile,
    IngestionProfileRevision, Input, JsonPointer, LogicalType, Nullability, Schema, Source,
};
use elucid::identity::{BatchId, FieldId, IngestionProfileRevisionId, InputId, SchemaId, SourceId};
use elucid::ingestion::model::{BatchMetadata, IngestionTime, PinnedCatalogIdentities};
use elucid::ingestion::normalization::{
    normalize_records, NormalizationError, MAXIMUM_BATCH_EVENT_DAYS,
};
use elucid::ingestion::record::{
    AcceptedRow, DeadLetterCode, DeadLetterEntry, NormalizedRecord, NormalizedValue,
    PayloadEncoding, PayloadExtent, RecordLocation, DEAD_LETTER_PAYLOAD_PREFIX_BYTES,
};
use elucid::json::JsonValue;

#[test]
fn normalization_frames_occurrences_and_constructs_complete_typed_rows() {
    let message_id = field_id(10);
    let nested_id = field_id(11);
    let fixture = fixture(
        1_024,
        EventTimeFormat::Rfc3339,
        vec![
            field(
                message_id,
                "message",
                LogicalType::Utf8,
                Nullability::NonNull,
            ),
            field(
                nested_id,
                "nested_value",
                LogicalType::Utf8,
                Nullability::Nullable,
            ),
        ],
        vec![
            mapping(message_id, "/message"),
            mapping(nested_id, "/nested/value"),
        ],
    );
    let first = br#"{"timestamp":"2026-08-20T12:00:00.123Z","message":"first","nested":{"value":"kept","sibling":7},"extra":true}"#;
    let second = br#"{"timestamp":"2026-08-20T13:00:00.000+01:00","message":"second"}"#;
    let mut body = b" \r\n".to_vec();
    let first_position = body.len();
    body.extend_from_slice(first);
    body.extend_from_slice(b"\r\n\n");
    let second_position = body.len();
    body.extend_from_slice(second);

    let normalized = normalize_records(fixture.metadata, &body, &fixture.source)
        .expect("the pinned catalog exists");

    assert_eq!(normalized.metadata(), fixture.metadata);
    assert_eq!(normalized.ignored_records(), 2);
    assert_eq!(normalized.records().len(), 2);

    let first_row = accepted(&normalized.records()[0]);
    assert_location(first_row.location(), 2, first_position as u64);
    assert_eq!(
        first_row.event_time().unix_milliseconds(),
        1_787_227_200_123
    );
    assert_eq!(
        first_row.ingestion_time(),
        fixture.metadata.ingestion_time()
    );
    assert_eq!(
        *first_row.event_id().as_bytes(),
        expected_event_id(fixture.metadata.batch_id(), first_position as u64)
    );
    assert_eq!(
        first_row
            .fields()
            .iter()
            .map(|field| (field.field_id(), field.value()))
            .collect::<Vec<_>>(),
        vec![
            (message_id, &NormalizedValue::Utf8("first".to_owned())),
            (nested_id, &NormalizedValue::Utf8("kept".to_owned())),
        ]
    );
    let remainder = first_row.remainder().expect("the row has remainder data");
    assert!(matches!(remainder.get("extra"), Some(JsonValue::Bool(true))));
    let Some(JsonValue::Object(nested)) = remainder.get("nested") else {
        panic!("the nested object is kept");
    };
    assert_eq!(nested.members.len(), 2);
    assert!(matches!(nested.get("value"), Some(JsonValue::String(text)) if text == "kept"));
    assert!(matches!(nested.get("sibling"), Some(JsonValue::Number(text)) if text == "7"));
    assert!(remainder.get("timestamp").is_none());
    assert!(remainder.get("message").is_none());

    let second_row = accepted(&normalized.records()[1]);
    assert_location(second_row.location(), 4, second_position as u64);
    assert_eq!(
        second_row.event_time().unix_milliseconds(),
        1_787_227_200_000
    );
    assert_eq!(second_row.fields()[1].value(), &NormalizedValue::Null);
    assert!(second_row.remainder().is_none());
    assert_ne!(first_row.event_id(), second_row.event_id());
}

#[test]
fn invalid_occurrences_become_bounded_dead_letters_without_stopping_the_batch() {
    let message_id = field_id(20);
    let fixture = fixture(
        256,
        EventTimeFormat::Rfc3339,
        vec![field(
            message_id,
            "message",
            LogicalType::Utf8,
            Nullability::NonNull,
        )],
        vec![mapping(message_id, "/message")],
    );
    let invalid_utf8 = b"{\"timestamp\":\"2026-08-20T12:00:00Z\",\"message\":\"\xff\"}";
    let duplicate =
        br#"{"timestamp":"2026-08-20T12:00:00Z","message":"x","nested":{"key":1,"key":2}}"#;
    let oversized = format!(
        "{{\"timestamp\":\"2026-08-20T12:00:00Z\",\"message\":\"{}\"}}",
        "x".repeat(DEAD_LETTER_PAYLOAD_PREFIX_BYTES + 64)
    );
    let accepted_record = br#"{"timestamp":"2026-08-20T12:00:00Z","message":"survives"}"#;
    let mut body = b"\n".to_vec();
    let invalid_position = body.len();
    body.extend_from_slice(invalid_utf8);
    body.push(b'\n');
    let duplicate_position = body.len();
    body.extend_from_slice(duplicate);
    body.push(b'\n');
    let oversized_position = body.len();
    body.extend_from_slice(oversized.as_bytes());
    body.push(b'\n');
    let accepted_position = body.len();
    body.extend_from_slice(accepted_record);

    let normalized = normalize_records(fixture.metadata, &body, &fixture.source)
        .expect("the pinned catalog exists");

    assert_eq!(normalized.ignored_records(), 1);
    assert_eq!(normalized.records().len(), 4);

    let invalid = rejected(&normalized.records()[0]);
    assert_location(invalid.location(), 2, invalid_position as u64);
    assert_eq!(invalid.code(), DeadLetterCode::InvalidUtf8);
    assert_eq!(invalid.payload_byte_count(), invalid_utf8.len() as u64);
    assert_eq!(
        invalid.payload_digest().as_bytes(),
        blake3::hash(invalid_utf8).as_bytes()
    );
    assert_eq!(invalid.payload().encoding(), PayloadEncoding::Base64);
    assert_eq!(invalid.payload().extent(), PayloadExtent::Complete);

    let duplicate_entry = rejected(&normalized.records()[1]);
    assert_location(duplicate_entry.location(), 3, duplicate_position as u64);
    assert_eq!(duplicate_entry.code(), DeadLetterCode::ParseFailed);
    assert_eq!(duplicate_entry.payload().encoding(), PayloadEncoding::Utf8);

    let oversized_entry = rejected(&normalized.records()[2]);
    assert_location(oversized_entry.location(), 4, oversized_position as u64);
    assert_eq!(oversized_entry.code(), DeadLetterCode::TooLarge);
    assert_eq!(oversized_entry.payload().extent(), PayloadExtent::Prefix);
    assert_eq!(oversized_entry.payload().encoding(), PayloadEncoding::Utf8);
    assert!(oversized_entry.payload().content().len() <= DEAD_LETTER_PAYLOAD_PREFIX_BYTES);
    assert_eq!(oversized_entry.payload_byte_count(), oversized.len() as u64);

    let row = accepted(&normalized.records()[3]);
    assert_location(row.location(), 5, accepted_position as u64);
    assert_eq!(
        row.fields()[0].value(),
        &NormalizedValue::Utf8("survives".to_owned())
    );
}

#[test]
fn strict_mappings_report_missing_null_conversion_and_event_time_separately() {
    let required_id = field_id(30);
    let optional_id = field_id(31);
    let fixture = fixture(
        1_024,
        EventTimeFormat::Rfc3339,
        vec![
            field(
                required_id,
                "required",
                LogicalType::Int32,
                Nullability::NonNull,
            ),
            field(
                optional_id,
                "optional",
                LogicalType::Bool,
                Nullability::Nullable,
            ),
        ],
        vec![
            mapping(required_id, "/required"),
            mapping(optional_id, "/optional"),
        ],
    );
    let body = br#"{"timestamp":"2026-08-20T12:00:00Z"}
{"timestamp":"2026-08-20T12:00:00Z","required":null}
{"timestamp":"2026-08-20T12:00:00Z","required":"1"}
{"timestamp":"not-a-datetime","required":1}
{"timestamp":"2026-08-20T12:00:00Z","required":1}"#;

    let normalized = normalize_records(fixture.metadata, body, &fixture.source)
        .expect("the pinned catalog exists");

    assert_eq!(
        normalized
            .records()
            .iter()
            .map(|record| match record {
                NormalizedRecord::DeadLetter(entry) => Some(entry.code()),
                NormalizedRecord::Accepted(_) => None,
            })
            .collect::<Vec<_>>(),
        vec![
            Some(DeadLetterCode::FieldMissing),
            Some(DeadLetterCode::FieldNull),
            Some(DeadLetterCode::ConversionFailed),
            Some(DeadLetterCode::EventTimeInvalid),
            None,
        ]
    );
    assert_eq!(
        accepted(&normalized.records()[4]).fields()[1].value(),
        &NormalizedValue::Null
    );
}

#[test]
fn every_declared_scalar_type_is_converted_directly_to_its_target_type() {
    let declarations = [
        ("boolean", LogicalType::Bool),
        ("i32", LogicalType::Int32),
        ("i64", LogicalType::Int64),
        ("u32", LogicalType::UInt32),
        ("u64", LogicalType::UInt64),
        ("f32", LogicalType::Float32),
        ("f64", LogicalType::Float64),
        ("text", LogicalType::Utf8),
        ("datetime", LogicalType::Datetime),
        ("unmapped", LogicalType::Utf8),
    ];
    let fields = declarations
        .iter()
        .enumerate()
        .map(|(index, (name, logical_type))| {
            field(
                field_id(40 + index as u128),
                name,
                *logical_type,
                if *name == "unmapped" {
                    Nullability::Nullable
                } else {
                    Nullability::NonNull
                },
            )
        })
        .collect::<Vec<_>>();
    let mappings = declarations
        .iter()
        .enumerate()
        .filter(|(_, (name, _))| *name != "unmapped")
        .map(|(index, (name, _))| mapping(field_id(40 + index as u128), &format!("/{name}")))
        .collect::<Vec<_>>();
    let fixture = fixture(4_096, EventTimeFormat::Rfc3339, fields, mappings);
    let body = br#"{"timestamp":"2026-08-20T12:00:00Z","boolean":true,"i32":-2147483648,"i64":-9223372036854775808,"u32":4294967295,"u64":18446744073709551615,"f32":1.0000000596046447753906250000000000000000000000000000001,"f64":1.7976931348623157e308,"text":"value","datetime":"1969-12-31T23:59:59.999Z"}"#;

    let normalized = normalize_records(fixture.metadata, body, &fixture.source)
        .expect("the pinned catalog exists");
    let values = accepted(&normalized.records()[0])
        .fields()
        .iter()
        .map(|field| field.value())
        .collect::<Vec<_>>();

    assert_eq!(values[0], &NormalizedValue::Bool(true));
    assert_eq!(values[1], &NormalizedValue::Int32(i32::MIN));
    assert_eq!(values[2], &NormalizedValue::Int64(i64::MIN));
    assert_eq!(values[3], &NormalizedValue::UInt32(u32::MAX));
    assert_eq!(values[4], &NormalizedValue::UInt64(u64::MAX));
    let NormalizedValue::Float32(float32) = values[5] else {
        panic!("f32 field has the declared type");
    };
    let float32: f32 = float32.parse().expect("a numeral");
    assert_eq!(float32.to_bits(), 1.0_f32.to_bits() + 1);
    let NormalizedValue::Float64(float64) = values[6] else {
        panic!("f64 field has the declared type");
    };
    assert_eq!(float64.parse::<f64>(), Ok(f64::MAX));
    assert_eq!(values[7], &NormalizedValue::Utf8("value".to_owned()));
    assert_eq!(values[8], &NormalizedValue::Datetime(-1));
    assert_eq!(values[9], &NormalizedValue::Null);
}

#[test]
fn event_day_fan_out_rejects_only_days_not_admitted_in_first_occurrence_order() {
    let message_id = field_id(60);
    let fixture = fixture(
        256,
        EventTimeFormat::Rfc3339,
        vec![field(
            message_id,
            "message",
            LogicalType::Utf8,
            Nullability::NonNull,
        )],
        vec![mapping(message_id, "/message")],
    );
    let first_day = chrono::NaiveDate::from_ymd_opt(2026, 1, 1).expect("first event day");
    let mut records = (0..=MAXIMUM_BATCH_EVENT_DAYS)
        .map(|offset| {
            let day = first_day
                .checked_add_days(chrono::Days::new(
                    u64::try_from(offset).expect("event-day test offset fits u64"),
                ))
                .expect("bounded event day");
            format!("{{\"timestamp\":\"{day}T00:00:00Z\",\"message\":\"day-{offset}\"}}")
        })
        .collect::<Vec<_>>();
    records.push(format!(
        "{{\"timestamp\":\"{first_day}T12:00:00Z\",\"message\":\"known-day\"}}"
    ));
    let rejected_day = first_day
        .checked_add_days(chrono::Days::new(
            u64::try_from(MAXIMUM_BATCH_EVENT_DAYS).expect("event-day limit fits u64"),
        ))
        .expect("rejected event day");
    records.push(format!(
        "{{\"timestamp\":\"{rejected_day}T12:00:00Z\",\"message\":\"still-unseen\"}}"
    ));
    let body = records.join("\n");

    let normalized = normalize_records(fixture.metadata, body.as_bytes(), &fixture.source)
        .expect("the pinned catalog exists");

    assert_eq!(normalized.records().len(), MAXIMUM_BATCH_EVENT_DAYS + 3);
    assert!(matches!(
        normalized.records()[MAXIMUM_BATCH_EVENT_DAYS],
        NormalizedRecord::DeadLetter(ref entry)
            if entry.code() == DeadLetterCode::EventDayLimitExceeded
    ));
    assert!(matches!(
        normalized.records()[MAXIMUM_BATCH_EVENT_DAYS + 1],
        NormalizedRecord::Accepted(_)
    ));
    assert!(matches!(
        normalized.records()[MAXIMUM_BATCH_EVENT_DAYS + 2],
        NormalizedRecord::DeadLetter(ref entry)
            if entry.code() == DeadLetterCode::EventDayLimitExceeded
    ));
}

fn simple_fixture() -> Fixture {
    let message_id = field_id(70);
    fixture(
        256,
        EventTimeFormat::UnixMilliseconds,
        vec![field(message_id, "message", LogicalType::Utf8, Nullability::NonNull)],
        vec![mapping(message_id, "/message")],
    )
}

#[test]
fn unusable_definitions_are_reported() {
    let mut case = simple_fixture();
    let pinned = case.source.id;
    case.source.id = source_id(9);
    assert_eq!(
        normalize_records(case.metadata, b"", &case.source).err(),
        Some(NormalizationError::SourceMismatch { pinned, supplied: source_id(9) })
    );

    let mut case = simple_fixture();
    case.source.inputs.clear();
    assert_eq!(
        normalize_records(case.metadata, b"", &case.source).err(),
        Some(NormalizationError::InputNotFound { source_id: source_id(1), input_id: input_id(3) })
    );

    let mut case = simple_fixture();
    case.source.inputs[0].profile_revisions.clear();
    assert_eq!(
        normalize_records(case.metadata, b"", &case.source).err(),
        Some(NormalizationError::ProfileRevisionNotFound {
            input_id: input_id(3),
            profile_revision_id: profile_revision_id(4),
        })
    );

    let mut case = simple_fixture();
    case.source.inputs[0].profile_revisions[0].target_schema_id = schema_id(8);
    assert_eq!(
        normalize_records(case.metadata, b"", &case.source).err(),
        Some(NormalizationError::ProfileTargetMismatch {
            pinned_schema_id: schema_id(2),
            profile_schema_id: schema_id(8),
        })
    );

    let mut case = simple_fixture();
    case.source.schemas.clear();
    assert_eq!(
        normalize_records(case.metadata, b"", &case.source).err(),
        Some(NormalizationError::SchemaNotFound {
            source_id: source_id(1),
            schema_id: schema_id(2),
        })
    );

    let mut case = simple_fixture();
    case.source.schemas[0].fields[0].logical_type = LogicalType::Json;
    assert_eq!(
        normalize_records(case.metadata, b"", &case.source).err(),
        Some(NormalizationError::UnsupportedDataFieldType { field_id: field_id(70) })
    );

    let mut case = simple_fixture();
    case.source.inputs[0].profile_revisions[0].profile.mappings.clear();
    assert_eq!(
        normalize_records(case.metadata, b"", &case.source).err(),
        Some(NormalizationError::RequiredFieldMappingMissing { field_id: field_id(70) })
    );
}

#[test]
fn definitions_alone_decide_whether_normalization_fails() {
    let bodies: [&[u8]; 5] = [b"", b"not json", b"\xff\xfe\n\0", b"{}\n{\"timestamp\":1}", b"[[[[\r\n"];
    let usable = simple_fixture();
    let mut unusable = simple_fixture();
    unusable.source.schemas.clear();
    for body in bodies {
        assert!(normalize_records(usable.metadata, body, &usable.source).is_ok());
        assert_eq!(
            normalize_records(unusable.metadata, body, &unusable.source).err(),
            Some(NormalizationError::SchemaNotFound {
                source_id: source_id(1),
                schema_id: schema_id(2),
            })
        );
    }
}

#[test]
fn unix_milliseconds_are_event_times() {
    let case = simple_fixture();
    let body = b"{\"timestamp\":-1,\"message\":\"a\"}\n{\"timestamp\":1.5,\"message\":\"a\"}\n[]";
    let normalized = normalize_records(case.metadata, body, &case.source).expect("a batch");
    assert_eq!(accepted(&normalized.records()[0]).event_time().unix_milliseconds(), -1);
    assert_eq!(rejected(&normalized.records()[1]).code(), DeadLetterCode::EventTimeInvalid);
    assert_eq!(rejected(&normalized.records()[2]).code(), DeadLetterCode::ParseFailed);
}

#[test]
fn every_line_is_ignored_or_becomes_one_record() {
    let case = simple_fixture();
    let body = b"\n \t\r\nx\n{}\n";
    let normalized = normalize_records(case.metadata, body, &case.source).expect("a batch");
    assert_eq!(normalized.ignored_records(), 2);
    assert_eq!(normalized.records().len(), 2);
    assert!(normalize_records(case.metadata, b"", &case.source).expect("a batch").records().is_empty());
}

#[test]
fn dead_letters_keep_the_bytes_in_a_readable_form() {
    let case = simple_fixture();
    let normalized =
        normalize_records(case.metadata, b"\xff\xfe\xfd", &case.source).expect("a batch");
    let entry = rejected(&normalized.records()[0]);
    assert_eq!(entry.payload().content(), "//79");
    assert_eq!(entry.payload().encoding(), PayloadEncoding::Base64);
    assert_eq!(entry.batch_id(), case.metadata.batch_id());
    let normalized =
        normalize_records(case.metadata, b"not json", &case.source).expect("a batch");
    assert_eq!(rejected(&normalized.records()[0]).payload().content(), "not json");
}

fn fixture(
    maximum_record_bytes: u64,
    event_time_format: EventTimeFormat,
    fields: Vec<Field>,
    mappings: Vec<FieldMapping>,
) -> Fixture {
    let source_id = source_id(1);
    let schema_id = schema_id(2);
    let input_id = input_id(3);
    let profile_revision_id = profile_revision_id(4);
    let revision = IngestionProfileRevision {
        id: profile_revision_id,
        target_schema_id: schema_id,
        profile: IngestionProfile {
            maximum_record_bytes,
            event_time: EventTimeMapping {
                json_pointer: pointer("/timestamp"),
                format: event_time_format,
            },
            mappings,
        },
    };
    let source = Source {
        id: source_id,
        name: "logs".to_owned(),
        active_schema_id: schema_id,
        schemas: vec![Schema { id: schema_id, source_id, fields }],
        inputs: vec![Input { id: input_id, profile_revisions: vec![revision] }],
    };
    let metadata = BatchMetadata::new(
        BatchId::new(identity(5)).expect("batch identity"),
        PinnedCatalogIdentities::new(source_id, input_id, profile_revision_id, schema_id),
        IngestionTime::from_unix_milliseconds(1_776_945_600_000).expect("ingestion time"),
    );
    Fixture { source, metadata }
}

struct Fixture {
    source: Source,
    metadata: BatchMetadata,
}

fn field(id: FieldId, name: &str, logical_type: LogicalType, nullability: Nullability) -> Field {
    Field { id, name: name.to_owned(), logical_type, nullability, role: FieldRole::Data }
}

fn pointer(text: &str) -> JsonPointer {
    JsonPointer { tokens: text.split('/').skip(1).map(|token| token.to_owned()).collect() }
}

fn mapping(id: FieldId, text: &str) -> FieldMapping {
    FieldMapping { target_field_id: id, json_pointer: pointer(text) }
}

fn expected_event_id(batch_id: BatchId, input_position: u64) -> [u8; 16] {
    let mut hasher = blake3::Hasher::new();
    hasher.update(b"elucid:event\0");
    hasher.update(&batch_id.as_u128().to_be_bytes());
    hasher.update(&input_position.to_be_bytes());
    let mut bytes = [0_u8; 16];
    bytes.copy_from_slice(&hasher.finalize().as_bytes()[..16]);
    bytes
}

fn accepted(record: &NormalizedRecord) -> &AcceptedRow {
    match record {
        NormalizedRecord::Accepted(row) => row,
        NormalizedRecord::DeadLetter(entry) => {
            panic!("expected an accepted row, got {}", entry.code().as_str())
        }
    }
}

fn rejected(record: &NormalizedRecord) -> &DeadLetterEntry {
    match record {
        NormalizedRecord::DeadLetter(entry) => entry,
        NormalizedRecord::Accepted(_) => panic!("expected a dead-letter entry"),
    }
}

fn assert_location(location: RecordLocation, line_number: u64, input_position: u64) {
    assert_eq!(location.line_number(), line_number);
    assert_eq!(location.input_position(), input_position);
}

fn source_id(value: u128) -> SourceId {
    SourceId::new(identity(value)).expect("source identity")
}

fn schema_id(value: u128) -> SchemaId {
    SchemaId::new(identity(value)).expect("schema identity")
}

fn field_id(value: u128) -> FieldId {
    FieldId::new(identity(value)).expect("field identity")
}

fn input_id(value: u128) -> InputId {
    InputId::new(identity(value)).expect("input identity")
}

fn profile_revision_id(value: u128) -> IngestionProfileRevisionId {
    IngestionProfileRevisionId::new(identity(value)).expect("profile revision identity")
}

fn identity(value: u128) -> u128 {
    0x018f_0000_0000_7000_8000_0000_0000_0000 | value
}
