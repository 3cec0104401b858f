use elucid::catalog::{Field, FieldRole, LogicalType, Nullability, Schema};
use elucid::identity::{BatchId, FieldId, SchemaId, SourceId};
use elucid::ingestion::estimate::{estimate_resident_row, estimate_row};
use elucid::ingestion::materialize::{
    materialize_segment_columns, DataColumn, SegmentMaterializationError,
};
use elucid::ingestion::model::IngestionTime;
use elucid::ingestion::record::{
    AcceptedRow, EventId, EventTime, NormalizedField, NormalizedValue, RecordLocation,
};
use elucid::ingestion::segment::{
    EventDay, SealedSegment, SealingReason, SegmentKey, SegmentRow, SegmentTimeBounds,
};
use elucid::json::parse_object;

fn identity(value: u128) -> u128 {
    0x018f_0000_0000_7000_8000_0000_0000_0000 | value
}

fn source_id(value: u128) -> SourceId {
    SourceId::new(identity(value)).expect("source identity")
}

fn schema_id(value: u128) -> SchemaId {
    SchemaId::new(identity(value)).expect("schema identity")
}

fn field_id(value: u128) -> FieldId {
    FieldId::new(identity(value)).expect("field identity")
}

fn field(id: u128, logical_type: LogicalType, nullability: Nullability) -> Field {
    Field {
        id: field_id(id),
        name: "field".to_owned(),
        logical_type,
        nullability,
        role: FieldRole::Data,
    }
}

fn schema(fields: Vec<Field>) -> Schema {
    Schema { id: schema_id(2), source_id: source_id(1), fields }
}

fn event_time(milliseconds: i64) -> EventTime {
    EventTime::from_unix_milliseconds(milliseconds).expect("event time")
}

fn row(milliseconds: i64, values: Vec<(u128, NormalizedValue)>) -> AcceptedRow {
    let batch_id = BatchId::new(identity(9)).expect("batch identity");
    AcceptedRow {
        location: RecordLocation::new(1, 0),
        event_time: event_time(milliseconds),
        ingestion_time: IngestionTime::from_unix_milliseconds(5).expect("ingestion time"),
        event_id: EventId::for_occurrence(batch_id, milliseconds as u64),
        fields: values
            .into_iter()
            .map(|(id, value)| NormalizedField { field_id: field_id(id), value })
            .collect(),
        remainder: None,
    }
}

fn segment(rows: Vec<AcceptedRow>) -> SealedSegment {
    let ingestion_time = IngestionTime::from_unix_milliseconds(5).expect("ingestion time");
    let count = rows.len() as u64;
    SealedSegment {
        key: SegmentKey::new(source_id(1), schema_id(2), EventDay::from_event_time(event_time(0))),
        rows: rows
            .into_iter()
            .map(|row| SegmentRow {
                batch_id: BatchId::new(identity(9)).expect("batch identity"),
                row,
                estimated_uncompressed_bytes: 1,
                estimated_resident_bytes: 1,
            })
            .collect(),
        estimated_uncompressed_bytes: count,
        estimated_resident_bytes: count,
        bounds: SegmentTimeBounds {
            minimum_event_time: event_time(0),
            maximum_event_time: event_time(1),
            minimum_ingestion_time: ingestion_time,
            maximum_ingestion_time: ingestion_time,
        },
        sealing_reason: SealingReason::Flush,
    }
}

#[test]
fn rows_become_columns() {
    let schema = schema(vec![
        field(10, LogicalType::Utf8, Nullability::NonNull),
        field(11, LogicalType::Int64, Nullability::Nullable),
    ]);
    let segment = segment(vec![
        row(
            0,
            vec![(10, NormalizedValue::Utf8("a".to_owned())), (11, NormalizedValue::Int64(-4))],
        ),
        row(1, vec![(10, NormalizedValue::Utf8("b".to_owned())), (11, NormalizedValue::Null)]),
    ]);
    let columns = materialize_segment_columns(&segment, &schema).expect("columns");
    assert_eq!(columns.event_times, [0, 1]);
    assert_eq!(columns.ingestion_times, [5, 5]);
    assert_eq!(columns.event_ids[1], *segment.rows()[1].row().event_id().as_bytes());
    assert_eq!(
        columns.data,
        [
            DataColumn::Utf8(vec![Some("a".to_owned()), Some("b".to_owned())]),
            DataColumn::Int64(vec![Some(-4), None]),
        ]
    );
}

#[test]
fn remainders_are_stored_in_the_order_of_their_keys() {
    let mut kept = row(0, vec![]);
    kept.remainder = parse_object(b"{\"b\":1,\"ab\":[{\"d\":1,\"c\":2}],\"a\":\"x\"}");
    let segment = segment(vec![kept, row(1, vec![])]);
    let columns = materialize_segment_columns(&segment, &schema(vec![])).expect("columns");
    assert_eq!(
        columns.remainders,
        [Some("{\"a\":\"x\",\"ab\":[{\"c\":2,\"d\":1}],\"b\":1}".to_owned()), None]
    );
}

#[test]
fn rows_that_do_not_fit_are_refused() {
    let utf8 = || vec![field(10, LogicalType::Utf8, Nullability::NonNull)];
    let good = || segment(vec![row(0, vec![(10, NormalizedValue::Utf8("a".to_owned()))])]);

    let mut other = schema(utf8());
    other.source_id = source_id(7);
    assert_eq!(
        materialize_segment_columns(&good(), &other).err(),
        Some(SegmentMaterializationError::StoredSchemaSourceMismatch {
            segment_source_id: source_id(1),
            schema_source_id: source_id(7),
        })
    );
    let mut other = schema(utf8());
    other.id = schema_id(7);
    assert_eq!(
        materialize_segment_columns(&good(), &other).err(),
        Some(SegmentMaterializationError::StoredSchemaIdentityMismatch {
            segment_schema_id: schema_id(2),
            stored_schema_id: schema_id(7),
        })
    );
    assert_eq!(
        materialize_segment_columns(
            &good(),
            &schema(vec![field(10, LogicalType::Json, Nullability::NonNull)])
        )
        .err(),
        Some(SegmentMaterializationError::UnsupportedDataFieldType {
            field_id: field_id(10),
            logical_type: LogicalType::Json,
        })
    );
    assert_eq!(
        materialize_segment_columns(&segment(vec![row(0, vec![])]), &schema(utf8())).err(),
        Some(SegmentMaterializationError::NormalizedFieldCountMismatch {
            expected_fields: 1,
            actual_fields: 0,
        })
    );
    assert_eq!(
        materialize_segment_columns(
            &segment(vec![row(0, vec![(11, NormalizedValue::Null)])]),
            &schema(utf8())
        )
        .err(),
        Some(SegmentMaterializationError::NormalizedFieldIdentityMismatch {
            expected_field_id: field_id(10),
            actual_field_id: field_id(11),
        })
    );
    assert_eq!(
        materialize_segment_columns(
            &segment(vec![row(0, vec![(10, NormalizedValue::Null)])]),
            &schema(utf8())
        )
        .err(),
        Some(SegmentMaterializationError::NonNullFieldContainsNull { field_id: field_id(10) })
    );
    assert_eq!(
        materialize_segment_columns(
            &segment(vec![row(0, vec![(10, NormalizedValue::Bool(true))])]),
            &schema(utf8())
        )
        .err(),
        Some(SegmentMaterializationError::NormalizedFieldTypeMismatch {
            field_id: field_id(10),
            logical_type: LogicalType::Utf8,
        })
    );
    assert_eq!(
        materialize_segment_columns(
            &segment(vec![row(0, vec![(10, NormalizedValue::Float32("1e39".to_owned()))])]),
            &schema(vec![field(10, LogicalType::Float32, Nullability::NonNull)])
        )
        .err(),
        Some(SegmentMaterializationError::NormalizedFloatNotFinite { field_id: field_id(10) })
    );
}

#[test]
fn rows_are_estimated_by_their_values() {
    let small = row(0, vec![(10, NormalizedValue::Utf8("a".to_owned()))]);
    let large = row(0, vec![(10, NormalizedValue::Utf8("abcd".to_owned()))]);
    assert_eq!(
        estimate_row(&large).expect("an estimate"),
        estimate_row(&small).expect("an estimate") + 3
    );
    let mut kept = row(0, vec![]);
    assert_eq!(estimate_row(&kept), Ok(33));
    kept.remainder = parse_object(b"{\"a\":1}");
    assert!(kept.remainder.is_some());
    assert_eq!(estimate_row(&kept), Ok(32 + 5 + 7));
    assert!(estimate_resident_row(&kept).expect("an estimate") > 32);
}
