use std::mem::size_of;

use elucid::catalog::{
    EventTimeFormat, EventTimeMapping, Field, FieldMapping, FieldRole, IngestionProfile,
    IngestionProfileRevision, Input, JsonPointer, LogicalType, Nullability, Schema, Source,
};
use elucid::identity::{BatchId, FieldId, IngestionProfileRevisionId, InputId, SchemaId, SourceId};
use elucid::ingestion::estimate::{estimate_resident_row, measure_row, resident_row_bytes};
use elucid::ingestion::model::{BatchMetadata, IngestionTime, PinnedCatalogIdentities};
use elucid::ingestion::normalization::normalize_records;
use elucid::ingestion::record::{
    AcceptedRow, DeadLetterCode, EventId, NormalizedBatch, NormalizedField, NormalizedRecord,
    NormalizedValue,
};
use elucid::ingestion::segment::{
    SealingReason, SegmentBuildError, SegmentBuildLimits, SegmentBuildOutcome, SegmentBuildSummary,
    SegmentBuilderModelError, SegmentCapacity, SegmentRow, SegmentStagingCapacity,
    MAXIMUM_SEGMENT_BUILDER_MEMORY_BYTES,
};
use elucid::ingestion::segment_builders::{
    measure_batch_rows, plan_batch_rows, plan_measured_rows, SegmentBuilders,
};
use elucid::json::JsonValue;

const STARTED_AT: u128 = 1_000_000_000_000;

fn seconds(count: u128) -> u128 {
    count * 1_000_000_000
}

fn limits(
    target_rows: usize,
    target_estimated_bytes: u64,
    maximum_open_nanoseconds: u128,
    maximum_open_builders: usize,
    maximum_estimated_resident_bytes: u64,
    maximum_staging_bytes: u64,
) -> SegmentBuildLimits {
    SegmentBuildLimits {
        target_rows,
        target_estimated_bytes,
        maximum_open_nanoseconds,
        maximum_open_builders,
        maximum_estimated_resident_bytes,
        maximum_staging_bytes,
    }
}

#[test]
fn builders_share_keys_across_batches_and_seal_deterministically_sorted_rows() {
    let fixture = Fixture::new();
    let limits = limits(
        100,
        1_000_000,
        seconds(60),
        8,
        1_000_000,
        1_000_000,
    );
    let mut builders = SegmentBuilders::with_limits(limits);
    let observed_at = STARTED_AT;
    let first = fixture.normalize(
        10,
        br#"{"timestamp":"2026-08-20T12:00:02Z","message":"second"}
not-json
{"timestamp":"2026-08-21T00:00:00Z","message":"next-day"}"#,
    );
    let second = fixture.normalize(
        11,
        br#"{"timestamp":"2026-08-20T12:00:01Z","message":"first"}"#,
    );

    let first_summary = accepted_summary(
        builders
            .push_batch(first, observed_at)
            .expect("first batch is buildable"),
    );
    assert_eq!(first_summary.dead_letters().len(), 1);
    assert_eq!(
        first_summary.dead_letters()[0].code(),
        DeadLetterCode::ParseFailed
    );
    let second_summary = accepted_summary(
        builders
            .push_batch(second, observed_at + seconds(1))
            .expect("second batch is buildable"),
    );
    assert!(second_summary.dead_letters().is_empty());
    assert_eq!(builders.usage().open_builders(), 2);
    assert_eq!(builders.flush_all().expect("flush builders"), 2);

    let first_segment = builders
        .take_next_sealed()
        .expect("queue accounting")
        .expect("first event day");
    assert_eq!(
        first_segment.event_day().as_date(),
        (2026, 8, 20)
    );
    assert_eq!(first_segment.sealing_reason(), SealingReason::Flush);
    assert_eq!(first_segment.row_count(), 2);
    assert_eq!(
        first_segment
            .rows()
            .iter()
            .map(|row| row.row().event_time().unix_milliseconds())
            .collect::<Vec<_>>(),
        [1_787_227_201_000, 1_787_227_202_000]
    );
    assert_eq!(first_segment.rows()[0].batch_id(), fixture.batch_id(11));
    assert_eq!(first_segment.rows()[1].batch_id(), fixture.batch_id(10));
    assert_eq!(
        first_segment.bounds().minimum_event_time(),
        first_segment.rows()[0].row().event_time()
    );
    assert_eq!(
        first_segment.bounds().maximum_event_time(),
        first_segment.rows()[1].row().event_time()
    );
    assert!(first_segment.estimated_uncompressed_bytes() > 0);

    let second_segment = builders
        .take_next_sealed()
        .expect("queue accounting")
        .expect("second event day");
    assert_eq!(
        second_segment.event_day().as_date(),
        (2026, 8, 21)
    );
    assert_eq!(second_segment.row_count(), 1);
    assert!(
        builders
            .take_next_sealed()
            .expect("queue accounting")
            .is_none()
    );
    assert_eq!(builders.usage().estimated_resident_bytes(), 0);
    assert_eq!(builders.usage().estimated_staging_bytes(), 0);
}

#[test]
fn row_age_and_lru_limits_seal_the_expected_builder() {
    let fixture = Fixture::new();
    let limits = limits(
        3,
        1_000_000,
        seconds(10),
        2,
        1_000_000,
        1_000_000,
    );
    let mut builders = SegmentBuilders::with_limits(limits);
    let started_at = STARTED_AT;

    push(
        &mut builders,
        fixture.normalize(20, &event("2026-08-20", "a")),
        started_at,
    );
    push(
        &mut builders,
        fixture.normalize(21, &event("2026-08-21", "b")),
        started_at + seconds(1),
    );
    push(
        &mut builders,
        fixture.normalize(22, &event("2026-08-20", "c")),
        started_at + seconds(2),
    );
    push(
        &mut builders,
        fixture.normalize(23, &event("2026-08-22", "d")),
        started_at + seconds(3),
    );

    let lru = builders
        .take_next_sealed()
        .expect("queue accounting")
        .expect("least recently used builder");
    assert_eq!(lru.event_day().as_date(), (2026, 8, 21));
    assert_eq!(lru.sealing_reason(), SealingReason::BuilderLimit);

    push(
        &mut builders,
        fixture.normalize(24, &event("2026-08-20", "e")),
        started_at + seconds(4),
    );
    let row_target = builders
        .take_next_sealed()
        .expect("queue accounting")
        .expect("row target segment");
    assert_eq!(row_target.event_day().as_date(), (2026, 8, 20));
    assert_eq!(row_target.row_count(), 3);
    assert_eq!(row_target.sealing_reason(), SealingReason::RowTarget);

    assert_eq!(
        builders
            .seal_expired(started_at + seconds(13))
            .expect("monotonic clock"),
        1
    );
    let aged = builders
        .take_next_sealed()
        .expect("queue accounting")
        .expect("aged segment");
    assert_eq!(aged.event_day().as_date(), (2026, 8, 22));
    assert_eq!(aged.sealing_reason(), SealingReason::MaximumAge);
}

#[test]
fn expiration_wait_tracks_the_first_row_without_resetting_on_append() {
    let fixture = Fixture::new();
    let limits = limits(
        100,
        1_000_000,
        seconds(10),
        8,
        1_000_000,
        1_000_000,
    );
    let mut builders = SegmentBuilders::with_limits(limits);
    let started_at = STARTED_AT;

    assert_eq!(
        builders
            .next_expiration_in(started_at)
            .expect("monotonic clock"),
        None
    );
    push(
        &mut builders,
        fixture.normalize(25, &event("2026-08-20", "first")),
        started_at,
    );
    assert_eq!(
        builders
            .next_expiration_in(started_at + seconds(4))
            .expect("monotonic clock"),
        Some(seconds(6))
    );

    push(
        &mut builders,
        fixture.normalize(26, &event("2026-08-20", "second")),
        started_at + seconds(6),
    );
    assert_eq!(
        builders
            .next_expiration_in(started_at + seconds(7))
            .expect("monotonic clock"),
        Some(seconds(3))
    );
    assert_eq!(
        builders
            .next_expiration_in(started_at + seconds(10))
            .expect("monotonic clock"),
        Some(0)
    );
}

#[test]
fn byte_target_seals_a_single_large_row_without_splitting_it() {
    let fixture = Fixture::new();
    let limits =
        limits(100, 128, seconds(60), 8, 10_000, 10_000);
    let mut builders = SegmentBuilders::with_limits(limits);
    let body = event("2026-08-20", &"x".repeat(256));

    push(&mut builders, fixture.normalize(30, &body), STARTED_AT);

    let segment = builders
        .take_next_sealed()
        .expect("queue accounting")
        .expect("byte target segment");
    assert_eq!(segment.row_count(), 1);
    assert!(segment.estimated_uncompressed_bytes() > 128);
    assert_eq!(segment.sealing_reason(), SealingReason::ByteTarget);
}

#[test]
fn equal_event_times_are_ordered_by_event_identity_across_batches() {
    let fixture = Fixture::new();
    let limits = limits(
        100,
        1_000_000,
        seconds(60),
        8,
        1_000_000,
        1_000_000,
    );
    let mut builders = SegmentBuilders::with_limits(limits);
    let observed_at = STARTED_AT;
    let left = fixture.normalize(31, &event("2026-08-20", "left"));
    let right = fixture.normalize(32, &event("2026-08-20", "right"));
    let left_id = accepted_event_id(&left);
    let right_id = accepted_event_id(&right);
    assert_ne!(left_id, right_id);
    let (larger, smaller, larger_id, smaller_id) = if left_id > right_id {
        (left, right, left_id, right_id)
    } else {
        (right, left, right_id, left_id)
    };

    push(&mut builders, larger, observed_at);
    push(&mut builders, smaller, observed_at + seconds(1));
    assert_eq!(builders.flush_all().expect("flush builder"), 1);

    let segment = builders
        .take_next_sealed()
        .expect("queue accounting")
        .expect("same-day segment");
    let event_ids = segment
        .rows()
        .iter()
        .map(|row| row.row().event_id())
        .collect::<Vec<_>>();
    assert_eq!(event_ids, [smaller_id, larger_id]);
}

#[test]
fn resident_capacity_defers_the_next_batch_without_losing_it() {
    let fixture = Fixture::new();
    let limits =
        limits(100, 10_000, seconds(60), 8, 1_024, 10_000);
    let mut builders = SegmentBuilders::with_limits(limits);
    let observed_at = STARTED_AT;
    let body = event("2026-08-20", &"x".repeat(300));
    push(&mut builders, fixture.normalize(40, &body), observed_at);

    let deferred = match builders
        .push_batch(
            fixture.normalize(41, &body),
            observed_at + seconds(1),
        )
        .expect("capacity is a typed outcome")
    {
        SegmentBuildOutcome::Deferred { batch, capacity } => {
            assert_eq!(capacity, SegmentCapacity::ResidentMemory);
            batch
        }
        SegmentBuildOutcome::Accepted(_) => panic!("the second batch must be deferred"),
    };
    let usage = builders.usage();
    assert_eq!(usage.open_builders(), 0);
    assert_eq!(usage.sealed_segments(), 1);
    assert!(usage.estimated_resident_bytes() <= usage.maximum_estimated_resident_bytes());
    assert!(usage.estimated_staging_bytes() <= usage.maximum_staging_bytes());
    assert_eq!(
        builders
            .take_next_sealed()
            .expect("queue accounting")
            .expect("memory-pressure segment")
            .sealing_reason(),
        SealingReason::CapacityPressure(SegmentCapacity::ResidentMemory)
    );

    push(
        &mut builders,
        deferred,
        observed_at + seconds(2),
    );
    assert_eq!(builders.usage().open_builders(), 1);
}

#[test]
fn staging_capacity_defers_the_next_batch_without_losing_it() {
    let fixture = Fixture::new();
    let limits =
        limits(100, 10_000, seconds(60), 8, 10_000, 600);
    let mut builders = SegmentBuilders::with_limits(limits);
    let observed_at = STARTED_AT;
    let body = event("2026-08-20", &"x".repeat(300));
    push(&mut builders, fixture.normalize(42, &body), observed_at);

    let deferred = match builders
        .push_batch(
            fixture.normalize(43, &body),
            observed_at + seconds(1),
        )
        .expect("capacity is a typed outcome")
    {
        SegmentBuildOutcome::Deferred { batch, capacity } => {
            assert_eq!(capacity, SegmentCapacity::Staging);
            batch
        }
        SegmentBuildOutcome::Accepted(_) => panic!("the second batch must be deferred"),
    };
    assert_eq!(
        builders
            .take_next_sealed()
            .expect("queue accounting")
            .expect("staging-pressure segment")
            .sealing_reason(),
        SealingReason::CapacityPressure(SegmentCapacity::Staging)
    );

    push(
        &mut builders,
        deferred,
        observed_at + seconds(2),
    );
    assert_eq!(builders.usage().open_builders(), 1);
}

fn push(builders: &mut SegmentBuilders, batch: NormalizedBatch, observed_at: u128) {
    let summary = accepted_summary(
        builders
            .push_batch(batch, observed_at)
            .expect("batch build"),
    );
    assert!(summary.dead_letters().is_empty());
}

fn accepted_summary(outcome: SegmentBuildOutcome) -> SegmentBuildSummary {
    match outcome {
        SegmentBuildOutcome::Accepted(summary) => summary,
        SegmentBuildOutcome::Deferred { .. } => panic!("batch unexpectedly deferred"),
    }
}

fn accepted_event_id(batch: &NormalizedBatch) -> EventId {
    match batch.records().as_slice() {
        [NormalizedRecord::Accepted(row)] => row.event_id(),
        _ => panic!("fixture must produce exactly one accepted row"),
    }
}

fn event(day: &str, message: &str) -> Vec<u8> {
    format!("{{\"timestamp\":\"{day}T12:00:00Z\",\"message\":\"{message}\"}}").into_bytes()
}

#[test]
fn the_clock_may_not_move_backwards() {
    let fixture = Fixture::new();
    let mut builders = SegmentBuilders::with_limits(limits(10, 10_000, seconds(10), 8, 10_000, 10_000));
    push(&mut builders, fixture.normalize(50, &event("2026-08-20", "a")), STARTED_AT);
    let before = builders.usage();
    assert_eq!(builders.seal_expired(STARTED_AT - 1), Err(SegmentBuildError::ClockMovedBackwards));
    assert_eq!(
        builders.next_expiration_in(STARTED_AT - 1),
        Err(SegmentBuildError::ClockMovedBackwards)
    );
    assert_eq!(
        builders
            .push_batch(fixture.normalize(51, &event("2026-08-20", "b")), STARTED_AT - 1)
            .err(),
        Some(SegmentBuildError::ClockMovedBackwards)
    );
    assert_eq!(builders.usage(), before);
}

#[test]
fn a_batch_over_the_whole_capacity_is_refused() {
    let fixture = Fixture::new();
    let mut builders = SegmentBuilders::with_limits(limits(10, 10_000, seconds(10), 8, 10_000, 100));
    let body = event("2026-08-20", &"x".repeat(300));
    let refused = builders.push_batch(fixture.normalize(52, &body), STARTED_AT).err();
    assert!(matches!(
        refused,
        Some(SegmentBuildError::BatchExceedsCapacity {
            capacity: SegmentCapacity::Staging,
            maximum_bytes: 100,
            ..
        })
    ));
    assert_eq!(builders.usage().open_builders(), 0);
}

#[test]
fn staging_capacity_is_positive() {
    assert_eq!(
        SegmentStagingCapacity::new(0),
        Err(SegmentBuilderModelError::StagingCapacityMustBePositive)
    );
    let capacity = SegmentStagingCapacity::new(5).expect("a capacity");
    assert_eq!(capacity.get(), 5);
    let standard = SegmentBuildLimits::standard(capacity);
    assert!(standard.is_valid());
    assert_eq!(standard.maximum_staging_bytes, 5);
    assert!(!limits(0, 1, 1, 1, 1, 1).is_valid());
    assert!(!limits(1, 1, 0, 1, 1, 1).is_valid());
    assert_eq!(SegmentCapacity::Staging.as_str(), "local staging");
}

#[test]
fn sealing_keeps_every_row() {
    let fixture = Fixture::new();
    let mut builders = SegmentBuilders::with_limits(limits(2, 10_000, seconds(10), 1, 100_000, 100_000));
    let mut pushed = Vec::new();
    for (index, day) in ["2026-08-20", "2026-08-21", "2026-08-20", "2026-08-20", "2026-08-22"].iter().enumerate() {
        let batch = fixture.normalize(60 + index as u128, &event(day, "m"));
        pushed.push(accepted_event_id(&batch));
        push(&mut builders, batch, STARTED_AT + index as u128);
    }
    builders.flush_all().expect("flush");
    let mut taken = Vec::new();
    while let Some(segment) = builders.take_next_sealed().expect("a queue") {
        taken.extend(segment.rows().iter().map(|row| row.row().event_id()));
    }
    pushed.sort();
    taken.sort();
    assert_eq!(pushed, taken);
}

fn only_row(batch: &NormalizedBatch) -> &AcceptedRow {
    match &batch.records[0] {
        NormalizedRecord::Accepted(row) => row,
        NormalizedRecord::DeadLetter(_) => panic!("the record was accepted"),
    }
}

const ALLOCATION: u64 = 32;

fn place_bytes(fields: u64, members: u64) -> u64 {
    2 * size_of::<SegmentRow>() as u64
        + fields * size_of::<NormalizedField>() as u64
        + ALLOCATION
        + members * (size_of::<(String, JsonValue)>() as u64 + 64)
}

#[test]
fn memory_is_counted_for_each_allocation_of_a_row() {
    let fixture = Fixture::new();
    let batch = fixture.normalize(
        70,
        br#"{"timestamp":"2026-08-20T12:00:00Z","message":"hi","tags":["a","b"],"n":{"k":1}}"#,
    );
    let row = only_row(&batch);
    let measured = measure_row(row);
    assert_eq!(measured.len(), 7);
    for (capacity, least) in measured.iter().zip([2, 4, 2, 1, 1, 1, 1]) {
        assert!(*capacity >= least);
    }
    let given = [10, 4, 3, 1, 0, 1, 6];
    let expected = place_bytes(1, 3)
        + (10 + ALLOCATION)
        + (4 + ALLOCATION)
        + (3 * size_of::<JsonValue>() as u64 + ALLOCATION)
        + (1 + ALLOCATION)
        + (1 + ALLOCATION)
        + (6 + ALLOCATION);
    assert_eq!(resident_row_bytes(row, &given), Ok(expected));
    assert_eq!(estimate_resident_row(row), resident_row_bytes(row, &measured));
    let larger: Vec<usize> = measured.iter().map(|capacity| capacity + 1).collect();
    assert!(
        resident_row_bytes(row, &larger).expect("bytes")
            > resident_row_bytes(row, &measured).expect("bytes")
    );
    assert_eq!(
        resident_row_bytes(row, &[usize::MAX, 4, 3, 1, 0, 1, 6]),
        Err(SegmentBuildError::EstimatedBytesOverflow)
    );
}

#[test]
fn a_row_without_texts_has_an_exact_estimate() {
    let fixture = Fixture::new();
    let batch = fixture.normalize(71, &event("2026-08-20", "hi"));
    let NormalizedRecord::Accepted(mut row) = batch.records.into_iter().next().expect("a record")
    else {
        panic!("the record was accepted");
    };
    row.fields[0].value = NormalizedValue::Int64(7);
    row.remainder = None;
    assert_eq!(measure_row(&row), Vec::<usize>::new());
    assert_eq!(estimate_resident_row(&row), Ok(place_bytes(1, 0)));
}

#[test]
fn planned_rows_hold_their_days_and_their_bytes() {
    let fixture = Fixture::new();
    let batch = fixture.normalize(
        72,
        br#"{"timestamp":"2026-08-20T12:00:00Z","message":"one"}
not-json
{"timestamp":"2026-08-21T12:00:00Z","message":"three"}"#,
    );
    let plan = plan_measured_rows(&batch, &vec![vec![3], vec![8]]).expect("a plan");
    assert_eq!(plan.rows.len(), 2);
    let days: Vec<i32> = plan.rows.iter().map(|row| row.event_day.epoch_day()).collect();
    assert_eq!(days, vec![20_685, 20_686]);
    let stored: Vec<u64> = plan.rows.iter().map(|row| row.estimated_uncompressed_bytes).collect();
    assert_eq!(stored, vec![33 + 8, 33 + 10]);
    assert_eq!(plan.total_estimated_uncompressed_bytes, 84);
    let memory: Vec<u64> = plan.rows.iter().map(|row| row.estimated_resident_bytes).collect();
    let places = place_bytes(1, 0);
    assert_eq!(memory, vec![places + 3 + ALLOCATION, places + 8 + ALLOCATION]);
    assert_eq!(plan.total_estimated_resident_bytes, 2 * places + 11 + 2 * ALLOCATION);

    let measured = measure_batch_rows(&batch);
    let planned = plan_batch_rows(&batch).expect("a plan");
    let again = plan_measured_rows(&batch, &measured).expect("a plan");
    assert_eq!(planned.rows, again.rows);

    let half = usize::MAX / 2;
    assert!(plan_measured_rows(&batch, &vec![vec![half], vec![8]]).is_ok());
    assert_eq!(
        plan_measured_rows(&batch, &vec![vec![half], vec![half]]).err(),
        Some(SegmentBuildError::EstimatedBytesOverflow)
    );
}

#[test]
fn standard_limits_leave_the_staging_capacity_to_the_caller() {
    let capacity = SegmentStagingCapacity::new(12_345).expect("staging capacity");
    let usage = SegmentBuilders::new(capacity).usage();
    assert_eq!(usage.maximum_staging_bytes(), 12_345);
    assert_eq!(usage.maximum_estimated_resident_bytes(), MAXIMUM_SEGMENT_BUILDER_MEMORY_BYTES);
    assert_eq!(usage.estimated_staging_bytes(), 0);
    assert_eq!(usage.open_builders(), 0);
}

#[test]
fn usage_is_the_sum_over_all_rows() {
    let fixture = Fixture::new();
    let mut builders =
        SegmentBuilders::with_limits(limits(2, 10_000, seconds(10), 2, 100_000, 100_000));
    for (index, day) in ["2026-08-20", "2026-08-21", "2026-08-20"].iter().enumerate() {
        let batch = fixture.normalize(80 + index as u128, &event(day, "m"));
        push(&mut builders, batch, STARTED_AT + index as u128);
    }
    let mut usage = builders.usage();
    assert_eq!((usage.open_builders(), usage.sealed_segments()), (1, 1));
    assert_eq!(usage.estimated_staging_bytes(), 3 * (33 + 6));
    builders.flush_all().expect("flush");
    assert_eq!(builders.usage().estimated_staging_bytes(), usage.estimated_staging_bytes());
    assert_eq!(builders.usage().estimated_resident_bytes(), usage.estimated_resident_bytes());
    while let Some(segment) = builders.take_next_sealed().expect("a queue") {
        let stored: u64 =
            segment.rows().iter().map(|row| row.estimated_uncompressed_bytes()).sum();
        let memory: u64 = segment.rows().iter().map(|row| row.estimated_resident_bytes()).sum();
        assert_eq!(segment.estimated_uncompressed_bytes(), stored);
        assert_eq!(segment.estimated_resident_bytes(), memory);
        let left = builders.usage();
        assert_eq!(left.estimated_staging_bytes() + stored, usage.estimated_staging_bytes());
        assert_eq!(left.estimated_resident_bytes() + memory, usage.estimated_resident_bytes());
        usage = left;
    }
    assert_eq!(usage.estimated_staging_bytes(), 0);
    assert_eq!(usage.estimated_resident_bytes(), 0);
}

struct Fixture {
    source: Source,
    source_id: SourceId,
    schema_id: SchemaId,
    input_id: InputId,
    profile_revision_id: IngestionProfileRevisionId,
}

impl Fixture {
    fn new() -> Self {
        let source_id = SourceId::new(identity(1)).expect("source identity");
        let schema_id = SchemaId::new(identity(2)).expect("schema identity");
        let input_id = InputId::new(identity(3)).expect("input identity");
        let profile_revision_id =
            IngestionProfileRevisionId::new(identity(4)).expect("profile revision identity");
        let message_id = FieldId::new(identity(5)).expect("field identity");
        let schema = Schema {
            id: schema_id,
            source_id,
            fields: vec![Field {
                id: message_id,
                name: "message".to_owned(),
                logical_type: LogicalType::Utf8,
                nullability: Nullability::NonNull,
                role: FieldRole::Data,
            }],
        };
        let profile = IngestionProfile {
            maximum_record_bytes: 2_048,
            event_time: EventTimeMapping {
                json_pointer: JsonPointer { tokens: vec!["timestamp".to_owned()] },
                format: EventTimeFormat::Rfc3339,
            },
            mappings: vec![FieldMapping {
                target_field_id: message_id,
                json_pointer: JsonPointer { tokens: vec!["message".to_owned()] },
            }],
        };
        let revision = IngestionProfileRevision {
            id: profile_revision_id,
            target_schema_id: schema_id,
            profile,
        };
        let source = Source {
            id: source_id,
            name: "logs".to_owned(),
            active_schema_id: schema_id,
            schemas: vec![schema],
            inputs: vec![Input { id: input_id, profile_revisions: vec![revision] }],
        };
        Self { source, source_id, schema_id, input_id, profile_revision_id }
    }

    fn normalize(&self, batch_sequence: u128, body: &[u8]) -> NormalizedBatch {
        normalize_records(self.metadata(batch_sequence), body, &self.source)
            .expect("normalize batch")
    }

    fn metadata(&self, batch_sequence: u128) -> BatchMetadata {
        BatchMetadata::new(
            self.batch_id(batch_sequence),
            PinnedCatalogIdentities::new(
                self.source_id,
                self.input_id,
                self.profile_revision_id,
                self.schema_id,
            ),
            IngestionTime::from_unix_milliseconds(
                1_787_227_200_000 + i64::try_from(batch_sequence).expect("test sequence"),
            )
            .expect("ingestion time"),
        )
    }

    fn batch_id(&self, batch_sequence: u128) -> BatchId {
        BatchId::new(identity(100 + batch_sequence)).expect("batch identity")
    }
}

fn identity(value: u128) -> u128 {
    0x018f_0000_0000_7000_8000_0000_0000_0000 | value
}
