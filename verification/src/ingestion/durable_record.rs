//! The plain values in which a recovery record is stored, and the record that they spell.

use vstd::prelude::*;

use crate::calendar::{
    date_day, date_text, day_of, format_date, parse_date, utc_day, utc_representable,
};
use crate::identity::{
    format_uuid, is_uuid_v7, parse_uuid, uuid_text, uuid_value, BatchId, InputId, SchemaId, SegmentId,
    SourceId, StoredObjectId,
};
use crate::ingestion::model::{SpoolBatchRange, SpoolCheckpoint};
use crate::ingestion::output_log::RecoveryLogCorruption;
use crate::ingestion::output_recovery::{
    coverage_fault, coverage_views, covered_positions, positions_fault, validate_coverage,
    BatchPositionCoverage, CoverageView, DeadLetterRegistration, IngestionSegmentRegistration,
    IngestionSegmentTimes, ManagedObjectKey, ObjectDescriptor, ObjectView, OutputRecoveryId,
    OutputRecoveryRecord, OutputView, RecordView, RecoveryOutput,
};

verus! {

/// The stored form of an object descriptor.
#[derive(Debug)]
pub struct DurableObjectDescriptor {
    pub object_id: String,
    pub object_key: String,
    pub expected_byte_size: u64,
    pub digest: [u8; 32],
    pub media_type: String,
    pub format_version: u64,
}

/// The stored form of an output.
#[derive(Debug)]
pub enum DurableRecoveryOutput {
    Segment {
        segment_id: String,
        source_id: String,
        schema_id: String,
        event_day: String,
        minimum_event_time_micros: i64,
        maximum_event_time_micros: i64,
        minimum_ingestion_time_micros: i64,
        maximum_ingestion_time_micros: i64,
        row_count: u64,
        uncompressed_bytes: u64,
        object: DurableObjectDescriptor,
    },
    DeadLetter { input_id: String, batch_id: String, object: DurableObjectDescriptor },
}

/// The stored form of one item of a coverage.
#[derive(Debug)]
pub struct DurableBatchCoverage {
    pub batch_id: String,
    pub spool_start: u64,
    pub spool_end: u64,
    pub positions: Vec<u64>,
}

/// The stored form of a recovery record.
#[derive(Debug)]
pub struct DurableRecoveryRecord {
    pub recovery_id: String,
    pub revision: u64,
    pub output: DurableRecoveryOutput,
    pub coverage: Vec<DurableBatchCoverage>,
}

/// Where the object of an output must lie, and which media type it must have.
#[derive(Debug)]
pub struct ExpectedObject {
    pub key: String,
    pub media_type: String,
}

/// The owner of an object, from whose identity the object's key is derived.
#[derive(Clone, Copy, Debug, PartialEq, Eq, Structural)]
pub enum ObjectOwner {
    Segment(SegmentId),
    Batch(BatchId),
}

/// The time-ordered identity that a text spells.
pub open spec fn identity_of(text: Seq<char>, fault: RecoveryLogCorruption) -> Result<
    u128,
    RecoveryLogCorruption,
> {
    match uuid_value(text) {
        None => Err(RecoveryLogCorruption::UuidText),
        Some(value) => if is_uuid_v7(value) {
            Ok(value)
        } else {
            Err(fault)
        },
    }
}

/// The identity, of any version, that a text spells.
pub open spec fn plain_identity_of(text: Seq<char>) -> Result<u128, RecoveryLogCorruption> {
    match uuid_value(text) {
        None => Err(RecoveryLogCorruption::UuidText),
        Some(value) => Ok(value),
    }
}

fn read_identity(text: &String, fault: RecoveryLogCorruption) -> (r: Result<
    u128,
    RecoveryLogCorruption,
>)
    ensures
        r == identity_of(text@, fault),
{
    match parse_uuid(text.as_str()) {
        None => Err(RecoveryLogCorruption::UuidText),
        Some(value) => if crate::identity::check_uuid_v7(value) {
            Ok(value)
        } else {
            Err(fault)
        },
    }
}

fn read_plain_identity(text: &String) -> (r: Result<u128, RecoveryLogCorruption>)
    ensures
        r == plain_identity_of(text@),
{
    match parse_uuid(text.as_str()) {
        None => Err(RecoveryLogCorruption::UuidText),
        Some(value) => Ok(value),
    }
}

/// The item that stored values spell.
pub open(crate) spec fn item_of(durable: DurableBatchCoverage) -> Result<
    CoverageView,
    RecoveryLogCorruption,
> {
    match identity_of(durable.batch_id@, RecoveryLogCorruption::BatchIdentity) {
        Err(e) => Err(e),
        Ok(value) => if durable.spool_start >= durable.spool_end {
            Err(RecoveryLogCorruption::SpoolRange)
        } else if positions_fault(durable.positions@) is Some {
            Err(RecoveryLogCorruption::Positions)
        } else {
            Ok(
                CoverageView {
                    batch_id: BatchId { value },
                    spool_range: SpoolBatchRange {
                        start: SpoolCheckpoint { position: durable.spool_start },
                        end: SpoolCheckpoint { position: durable.spool_end },
                    },
                    positions: durable.positions@,
                },
            )
        },
    }
}

/// The items that stored values spell, or the fault of the first that spells none.
pub open(crate) spec fn items_of(durable: Seq<DurableBatchCoverage>) -> Result<
    Seq<CoverageView>,
    RecoveryLogCorruption,
>
    decreases durable.len(),
{
    if durable.len() == 0 {
        Ok(Seq::empty())
    } else {
        match items_of(durable.drop_last()) {
            Err(e) => Err(e),
            Ok(items) => match item_of(durable.last()) {
                Err(e) => Err(e),
                Ok(item) => Ok(items.push(item)),
            },
        }
    }
}

/// Whether a UTC date-time can hold this many microseconds since the Unix epoch.
pub open spec fn micros_representable(micros: i64) -> bool {
    utc_representable(micros as int / 1000)
}

/// Whether the instants of a segment are in order and its event times fall on its event day.
pub open spec fn times_valid(times: IngestionSegmentTimes) -> bool {
    &&& times.minimum_event_time_micros <= times.maximum_event_time_micros
    &&& times.minimum_ingestion_time_micros <= times.maximum_ingestion_time_micros
    &&& utc_day(times.minimum_event_time_micros as int / 1000) == times.event_day
    &&& utc_day(times.maximum_event_time_micros as int / 1000) == times.event_day
}

/// Whether a UTC date-time can hold each instant of a segment.
pub open spec fn times_representable(times: IngestionSegmentTimes) -> bool {
    &&& micros_representable(times.minimum_event_time_micros)
    &&& micros_representable(times.maximum_event_time_micros)
    &&& micros_representable(times.minimum_ingestion_time_micros)
    &&& micros_representable(times.maximum_ingestion_time_micros)
}

/// The millisecond that an instant falls in.
fn floor_milliseconds(micros: i64) -> (r: i64)
    ensures
        r == micros as int / 1000,
{
    if micros >= 0 {
        micros / 1000
    } else {
        let above: i64 = -((-(micros + 1)) / 1000);
        above - 1
    }
}

/// The day that an instant falls on, or `None` if a UTC date-time cannot hold it.
fn day_of_micros(micros: i64) -> (r: Option<i32>)
    ensures
        r is Some <==> micros_representable(micros),
        r matches Some(day) ==> day == utc_day(micros as int / 1000),
{
    day_of(floor_milliseconds(micros))
}

/// The object that stored values describe.
pub open spec fn object_of(
    durable: DurableObjectDescriptor,
    expected: ExpectedObject,
) -> Result<ObjectView, RecoveryLogCorruption> {
    match plain_identity_of(durable.object_id@) {
        Err(e) => Err(e),
        Ok(value) => if durable.object_key@ != expected.key@ || durable.media_type@
            != expected.media_type@ {
            Err(RecoveryLogCorruption::ObjectKey)
        } else if durable.format_version == 0 {
            Err(RecoveryLogCorruption::ObjectFormat)
        } else {
            Ok(
                ObjectView {
                    key: durable.object_key@,
                    object_id: StoredObjectId { value },
                    expected_byte_size: durable.expected_byte_size,
                    digest: durable.digest@,
                    media_type: durable.media_type@,
                    format_version: durable.format_version,
                },
            )
        },
    }
}

/// The output that stored values spell.
pub open(crate) spec fn output_of(
    durable: DurableRecoveryOutput,
    expected: ExpectedObject,
) -> Result<OutputView, RecoveryLogCorruption> {
    match durable {
        DurableRecoveryOutput::Segment {
            segment_id,
            source_id,
            schema_id,
            event_day,
            minimum_event_time_micros,
            maximum_event_time_micros,
            minimum_ingestion_time_micros,
            maximum_ingestion_time_micros,
            row_count,
            uncompressed_bytes,
            object,
        } => {
            match (
                plain_identity_of(segment_id@),
                identity_of(source_id@, RecoveryLogCorruption::SourceIdentity),
                identity_of(schema_id@, RecoveryLogCorruption::SchemaIdentity),
                date_day(event_day@),
                object_of(object, expected),
            ) {
                (Err(e), _, _, _, _) => Err(e),
                (_, Err(e), _, _, _) => Err(e),
                (_, _, Err(e), _, _) => Err(e),
                (_, _, _, None, _) => Err(RecoveryLogCorruption::EventDay),
                (Ok(segment), Ok(source), Ok(schema), Some(day), described) => {
                    let times = IngestionSegmentTimes {
                        event_day: day,
                        minimum_event_time_micros,
                        maximum_event_time_micros,
                        minimum_ingestion_time_micros,
                        maximum_ingestion_time_micros,
                    };
                    if !times_representable(times) {
                        Err(RecoveryLogCorruption::Timestamp)
                    } else if !times_valid(times) {
                        Err(RecoveryLogCorruption::SegmentTimes)
                    } else {
                        match described {
                            Err(e) => Err(e),
                            Ok(view) => if row_count == 0 {
                                Err(RecoveryLogCorruption::RowCountZero)
                            } else if uncompressed_bytes == 0 {
                                Err(RecoveryLogCorruption::UncompressedBytesZero)
                            } else {
                                Ok(
                                    OutputView::Segment {
                                        segment_id: SegmentId { value: segment },
                                        source_id: SourceId { value: source },
                                        schema_id: SchemaId { value: schema },
                                        times,
                                        row_count,
                                        uncompressed_bytes,
                                        object: view,
                                    },
                                )
                            },
                        }
                    }
                },
            }
        },
        DurableRecoveryOutput::DeadLetter { input_id, batch_id, object } => {
            match (
                identity_of(input_id@, RecoveryLogCorruption::InputIdentity),
                identity_of(batch_id@, RecoveryLogCorruption::BatchIdentity),
                object_of(object, expected),
            ) {
                (Err(e), _, _) => Err(e),
                (_, Err(e), _) => Err(e),
                (_, _, Err(e)) => Err(e),
                (Ok(input), Ok(batch), Ok(view)) => Ok(
                    OutputView::DeadLetter {
                        input_id: InputId { value: input },
                        batch_id: BatchId { value: batch },
                        object: view,
                    },
                ),
            }
        },
    }
}

/// The record that stored values spell.
pub open(crate) spec fn record_of(
    durable: DurableRecoveryRecord,
    expected: ExpectedObject,
) -> Result<RecordView, RecoveryLogCorruption> {
    match identity_of(durable.recovery_id@, RecoveryLogCorruption::RecoveryIdentity) {
        Err(e) => Err(e),
        Ok(value) => if durable.revision == 0 {
            Err(RecoveryLogCorruption::RevisionZero)
        } else {
            match items_of(durable.coverage@) {
                Err(e) => Err(e),
                Ok(coverage) => if coverage_fault(coverage) is Some {
                    Err(RecoveryLogCorruption::Coverage)
                } else {
                    match output_of(durable.output, expected) {
                        Err(e) => Err(e),
                        Ok(output) => {
                            let record = RecordView {
                                id: OutputRecoveryId { value },
                                revision: durable.revision,
                                output,
                                coverage,
                            };
                            if record.consistent() {
                                Ok(record)
                            } else if output is Segment {
                                Err(RecoveryLogCorruption::SegmentRows)
                            } else {
                                Err(RecoveryLogCorruption::DeadLetterCoverage)
                            }
                        },
                    }
                },
            }
        },
    }
}

/// Whether these are the values in which an item of a coverage is stored.
pub open(crate) spec fn stores_item(durable: DurableBatchCoverage, item: CoverageView) -> bool {
    &&& durable.batch_id@ == uuid_text(item.batch_id.spec_value())
    &&& durable.spool_start == item.spool_range.spec_start().position
    &&& durable.spool_end == item.spool_range.spec_end().position
    &&& durable.positions@ == item.positions
}

/// Whether these are the values in which a coverage is stored.
pub open(crate) spec fn stores_coverage(
    durable: Seq<DurableBatchCoverage>,
    coverage: Seq<CoverageView>,
) -> bool {
    &&& durable.len() == coverage.len()
    &&& forall|i: int| 0 <= i < durable.len() ==> stores_item(#[trigger] durable[i], coverage[i])
}

/// Whether these are the values in which an object descriptor is stored.
pub open spec fn stores_object(durable: DurableObjectDescriptor, object: ObjectView) -> bool {
    &&& durable.object_id@ == uuid_text(object.object_id.value)
    &&& durable.object_key@ == object.key
    &&& durable.expected_byte_size == object.expected_byte_size
    &&& durable.digest@ == object.digest
    &&& durable.media_type@ == object.media_type
    &&& durable.format_version == object.format_version
}

/// Whether these are the values in which an output is stored.
pub open(crate) spec fn stores_output(
    durable: DurableRecoveryOutput,
    output: OutputView,
) -> bool {
    match output {
        OutputView::Segment {
            segment_id,
            source_id,
            schema_id,
            times,
            row_count,
            uncompressed_bytes,
            object,
        } => {
            &&& durable is Segment
            &&& durable->segment_id@ == uuid_text(segment_id.value)
            &&& durable->source_id@ == uuid_text(source_id.spec_value())
            &&& durable->schema_id@ == uuid_text(schema_id.spec_value())
            &&& durable->event_day@ == date_text(times.event_day)
            &&& durable->minimum_event_time_micros == times.minimum_event_time_micros
            &&& durable->maximum_event_time_micros == times.maximum_event_time_micros
            &&& durable->minimum_ingestion_time_micros == times.minimum_ingestion_time_micros
            &&& durable->maximum_ingestion_time_micros == times.maximum_ingestion_time_micros
            &&& durable->row_count == row_count
            &&& durable->uncompressed_bytes == uncompressed_bytes
            &&& stores_object(durable->Segment_object, object)
        },
        OutputView::DeadLetter { input_id, batch_id, object } => {
            &&& durable is DeadLetter
            &&& durable->input_id@ == uuid_text(input_id.spec_value())
            &&& durable->batch_id@ == uuid_text(batch_id.spec_value())
            &&& stores_object(durable->DeadLetter_object, object)
        },
    }
}

/// Whether these are the values in which a record is stored.
pub open(crate) spec fn stores_record(durable: DurableRecoveryRecord, record: RecordView) -> bool {
    &&& durable.recovery_id@ == uuid_text(record.id.spec_value())
    &&& durable.revision == record.revision
    &&& stores_output(durable.output, record.output)
    &&& stores_coverage(durable.coverage@, record.coverage)
}

impl DurableBatchCoverage {
    pub fn into_coverage(self) -> (r: Result<BatchPositionCoverage, RecoveryLogCorruption>)
        ensures
            match r {
                Ok(item) => item_of(self) == Ok::<CoverageView, RecoveryLogCorruption>(item@),
                Err(e) => item_of(self) == Err::<CoverageView, RecoveryLogCorruption>(e),
            },
    {
        let value: u128 = match read_identity(
            &self.batch_id,
            RecoveryLogCorruption::BatchIdentity,
        ) {
            Ok(value) => value,
            Err(e) => {
                return Err(e);
            },
        };
        let batch_id: BatchId = match BatchId::new(value) {
            Ok(id) => id,
            Err(_) => {
                return Err(RecoveryLogCorruption::BatchIdentity);
            },
        };
        let spool_range: SpoolBatchRange = match SpoolBatchRange::new(
            self.spool_start,
            self.spool_end,
        ) {
            Ok(range) => range,
            Err(_) => {
                return Err(RecoveryLogCorruption::SpoolRange);
            },
        };
        match BatchPositionCoverage::new(batch_id, spool_range, self.positions) {
            Ok(item) => Ok(item),
            Err(_) => Err(RecoveryLogCorruption::Positions),
        }
    }

    pub fn from_coverage(coverage: &BatchPositionCoverage) -> (r: Self)
        ensures
            stores_item(r, coverage@),
            item_of(r) == Ok::<CoverageView, RecoveryLogCorruption>(coverage@),
    {
        let batch: u128 = coverage.batch_id().as_u128();
        let start: u64 = coverage.spool_range().start().position();
        let end: u64 = coverage.spool_range().end().position();
        let copy: BatchPositionCoverage = coverage.duplicate();
        proof {
            use_type_invariant(coverage);
        }
        DurableBatchCoverage {
            batch_id: format_uuid(batch),
            spool_start: start,
            spool_end: end,
            positions: copy.positions,
        }
    }
}

impl DurableObjectDescriptor {
    pub fn from_descriptor(descriptor: &ObjectDescriptor) -> (r: Self)
        ensures
            stores_object(r, descriptor@),
            plain_identity_of(r.object_id@) == Ok::<u128, RecoveryLogCorruption>(
                descriptor@.object_id.value,
            ),
    {
        DurableObjectDescriptor {
            object_id: format_uuid(descriptor.key.object_id.value),
            object_key: descriptor.key.text.clone(),
            expected_byte_size: descriptor.expected_byte_size,
            digest: descriptor.digest,
            media_type: descriptor.media_type.clone(),
            format_version: descriptor.format_version,
        }
    }

    pub fn into_descriptor(self, expected: &ExpectedObject) -> (r: Result<
        ObjectDescriptor,
        RecoveryLogCorruption,
    >)
        ensures
            match r {
                Ok(object) => object_of(self, *expected) == Ok::<ObjectView, RecoveryLogCorruption>(
                    object@,
                ),
                Err(e) => object_of(self, *expected) == Err::<ObjectView, RecoveryLogCorruption>(e),
            },
    {
        let value: u128 = match read_plain_identity(&self.object_id) {
            Ok(value) => value,
            Err(e) => {
                return Err(e);
            },
        };
        if self.object_key != expected.key || self.media_type != expected.media_type {
            return Err(RecoveryLogCorruption::ObjectKey);
        }
        if self.format_version == 0 {
            return Err(RecoveryLogCorruption::ObjectFormat);
        }
        Ok(
            ObjectDescriptor {
                key: ManagedObjectKey {
                    text: self.object_key,
                    object_id: StoredObjectId { value },
                },
                expected_byte_size: self.expected_byte_size,
                digest: self.digest,
                media_type: self.media_type,
                format_version: self.format_version,
            },
        )
    }
}

/// The instants of a segment that stored values spell.
fn read_times(
    event_day: &String,
    minimum_event_time_micros: i64,
    maximum_event_time_micros: i64,
    minimum_ingestion_time_micros: i64,
    maximum_ingestion_time_micros: i64,
) -> (r: Result<IngestionSegmentTimes, RecoveryLogCorruption>)
    ensures
        match date_day(event_day@) {
            None => r == Err::<IngestionSegmentTimes, RecoveryLogCorruption>(
                RecoveryLogCorruption::EventDay,
            ),
            Some(day) => {
                let times = IngestionSegmentTimes {
                    event_day: day,
                    minimum_event_time_micros,
                    maximum_event_time_micros,
                    minimum_ingestion_time_micros,
                    maximum_ingestion_time_micros,
                };
                r == if !times_representable(times) {
                    Err::<IngestionSegmentTimes, RecoveryLogCorruption>(
                        RecoveryLogCorruption::Timestamp,
                    )
                } else if !times_valid(times) {
                    Err::<IngestionSegmentTimes, RecoveryLogCorruption>(
                        RecoveryLogCorruption::SegmentTimes,
                    )
                } else {
                    Ok::<IngestionSegmentTimes, RecoveryLogCorruption>(times)
                }
            },
        },
{
    let event_day: i32 = match parse_date(event_day.as_str()) {
        Some(day) => day,
        None => {
            return Err(RecoveryLogCorruption::EventDay);
        },
    };
    let first: Option<i32> = day_of_micros(minimum_event_time_micros);
    let last: Option<i32> = day_of_micros(maximum_event_time_micros);
    let admitted_first: Option<i32> = day_of_micros(minimum_ingestion_time_micros);
    let admitted_last: Option<i32> = day_of_micros(maximum_ingestion_time_micros);
    match (first, last, admitted_first, admitted_last) {
        (Some(first_day), Some(last_day), Some(_), Some(_)) => {
            if minimum_event_time_micros > maximum_event_time_micros
                || minimum_ingestion_time_micros > maximum_ingestion_time_micros || first_day
                != event_day || last_day != event_day {
                return Err(RecoveryLogCorruption::SegmentTimes);
            }
            Ok(
                IngestionSegmentTimes {
                    event_day,
                    minimum_event_time_micros,
                    maximum_event_time_micros,
                    minimum_ingestion_time_micros,
                    maximum_ingestion_time_micros,
                },
            )
        },
        _ => Err(RecoveryLogCorruption::Timestamp),
    }
}

/// Whether stored values name an output's object and whose it is.
pub open spec fn names_owner(durable: DurableRecoveryOutput) -> bool {
    match durable {
        DurableRecoveryOutput::Segment { segment_id, object, .. } => plain_identity_of(
            segment_id@,
        ) is Ok && plain_identity_of(object.object_id@) is Ok,
        DurableRecoveryOutput::DeadLetter { batch_id, object, .. } => identity_of(
            batch_id@,
            RecoveryLogCorruption::BatchIdentity,
        ) is Ok && plain_identity_of(object.object_id@) is Ok,
    }
}

/// Stored values that do not name an object and its owner are refused, for the same reason whatever
/// object is expected.
pub proof fn ownerless_records_are_refused(
    durable: DurableRecoveryRecord,
    expected: ExpectedObject,
    other: ExpectedObject,
)
    requires
        !names_owner(durable.output),
    ensures
        record_of(durable, expected) is Err,
        record_of(durable, other) == record_of(durable, expected),
{
}

impl DurableRecoveryOutput {
    /// Whose object this is, and which: from these the expected key is derived.
    pub fn object_owner(&self) -> (r: Result<(ObjectOwner, StoredObjectId), RecoveryLogCorruption>)
        ensures
            r is Ok <==> names_owner(*self),
            match self {
                DurableRecoveryOutput::Segment { segment_id, object, .. } => match (
                    plain_identity_of(segment_id@),
                    plain_identity_of(object.object_id@),
                ) {
                    (Ok(segment), Ok(stored)) => r == Ok::<
                        (ObjectOwner, StoredObjectId),
                        RecoveryLogCorruption,
                    >(
                        (
                            ObjectOwner::Segment(SegmentId { value: segment }),
                            StoredObjectId { value: stored },
                        ),
                    ),
                    _ => r == Err::<(ObjectOwner, StoredObjectId), RecoveryLogCorruption>(
                        RecoveryLogCorruption::UuidText,
                    ),
                },
                DurableRecoveryOutput::DeadLetter { batch_id, object, .. } => match (
                    identity_of(batch_id@, RecoveryLogCorruption::BatchIdentity),
                    plain_identity_of(object.object_id@),
                ) {
                    (Ok(batch), Ok(stored)) => r matches Ok((ObjectOwner::Batch(id), at))
                        && id.spec_value() == batch && at.value == stored,
                    (Err(e), _) => r == Err::<
                        (ObjectOwner, StoredObjectId),
                        RecoveryLogCorruption,
                    >(e),
                    (_, Err(e)) => r == Err::<
                        (ObjectOwner, StoredObjectId),
                        RecoveryLogCorruption,
                    >(e),
                },
            },
    {
        match self {
            DurableRecoveryOutput::Segment { segment_id, object, .. } => {
                let segment: u128 = match read_plain_identity(segment_id) {
                    Ok(value) => value,
                    Err(e) => {
                        return Err(e);
                    },
                };
                match read_plain_identity(&object.object_id) {
                    Ok(value) => Ok(
                        (
                            ObjectOwner::Segment(SegmentId { value: segment }),
                            StoredObjectId { value },
                        ),
                    ),
                    Err(e) => Err(e),
                }
            },
            DurableRecoveryOutput::DeadLetter { batch_id, object, .. } => {
                let batch: u128 = match read_identity(
                    batch_id,
                    RecoveryLogCorruption::BatchIdentity,
                ) {
                    Ok(value) => value,
                    Err(e) => {
                        return Err(e);
                    },
                };
                match (BatchId::new(batch), read_plain_identity(&object.object_id)) {
                    (Ok(id), Ok(value)) => Ok((ObjectOwner::Batch(id), StoredObjectId { value })),
                    (_, Err(e)) => Err(e),
                    (Err(_), Ok(_)) => Err(RecoveryLogCorruption::BatchIdentity),
                }
            },
        }
    }

    pub fn into_output(self, expected: &ExpectedObject) -> (r: Result<
        RecoveryOutput,
        RecoveryLogCorruption,
    >)
        ensures
            match r {
                Ok(output) => output_of(self, *expected) == Ok::<OutputView, RecoveryLogCorruption>(
                    output@,
                ),
                Err(e) => output_of(self, *expected) == Err::<OutputView, RecoveryLogCorruption>(e),
            },
    {
        match self {
            DurableRecoveryOutput::Segment {
                segment_id,
                source_id,
                schema_id,
                event_day,
                minimum_event_time_micros,
                maximum_event_time_micros,
                minimum_ingestion_time_micros,
                maximum_ingestion_time_micros,
                row_count,
                uncompressed_bytes,
                object,
            } => {
                let segment: u128 = match read_plain_identity(&segment_id) {
                    Ok(value) => value,
                    Err(e) => {
                        return Err(e);
                    },
                };
                let source: u128 = match read_identity(
                    &source_id,
                    RecoveryLogCorruption::SourceIdentity,
                ) {
                    Ok(value) => value,
                    Err(e) => {
                        return Err(e);
                    },
                };
                let schema: u128 = match read_identity(
                    &schema_id,
                    RecoveryLogCorruption::SchemaIdentity,
                ) {
                    Ok(value) => value,
                    Err(e) => {
                        return Err(e);
                    },
                };
                let times: IngestionSegmentTimes = match read_times(
                    &event_day,
                    minimum_event_time_micros,
                    maximum_event_time_micros,
                    minimum_ingestion_time_micros,
                    maximum_ingestion_time_micros,
                ) {
                    Ok(times) => times,
                    Err(e) => {
                        return Err(e);
                    },
                };
                let described: ObjectDescriptor = match object.into_descriptor(expected) {
                    Ok(object) => object,
                    Err(e) => {
                        return Err(e);
                    },
                };
                if row_count == 0 {
                    return Err(RecoveryLogCorruption::RowCountZero);
                }
                if uncompressed_bytes == 0 {
                    return Err(RecoveryLogCorruption::UncompressedBytesZero);
                }
                match (SourceId::new(source), SchemaId::new(schema)) {
                    (Ok(source_id), Ok(schema_id)) => Ok(
                        RecoveryOutput::Segment(
                            IngestionSegmentRegistration {
                                segment_id: SegmentId { value: segment },
                                source_id,
                                schema_id,
                                times,
                                row_count,
                                uncompressed_bytes,
                                object: described,
                            },
                        ),
                    ),
                    _ => Err(RecoveryLogCorruption::SourceIdentity),
                }
            },
            DurableRecoveryOutput::DeadLetter { input_id, batch_id, object } => {
                let input: u128 = match read_identity(
                    &input_id,
                    RecoveryLogCorruption::InputIdentity,
                ) {
                    Ok(value) => value,
                    Err(e) => {
                        return Err(e);
                    },
                };
                let batch: u128 = match read_identity(
                    &batch_id,
                    RecoveryLogCorruption::BatchIdentity,
                ) {
                    Ok(value) => value,
                    Err(e) => {
                        return Err(e);
                    },
                };
                let described: ObjectDescriptor = match object.into_descriptor(expected) {
                    Ok(object) => object,
                    Err(e) => {
                        return Err(e);
                    },
                };
                match (InputId::new(input), BatchId::new(batch)) {
                    (Ok(input_id), Ok(batch_id)) => Ok(
                        RecoveryOutput::DeadLetter(
                            DeadLetterRegistration { input_id, batch_id, object: described },
                        ),
                    ),
                    _ => Err(RecoveryLogCorruption::InputIdentity),
                }
            },
        }
    }

    /// The stored form of an output.
    pub fn from_output(output: &RecoveryOutput) -> (r: Self)
        requires
            output_storable(output@),
        ensures
            stores_output(r, output@),
            forall|expected: ExpectedObject|
                expected.key@ == output@.object().key && expected.media_type@
                    == output@.object().media_type ==> #[trigger] output_of(r, expected) == Ok::<
                    OutputView,
                    RecoveryLogCorruption,
                >(output@),
    {
        match output {
            RecoveryOutput::Segment(registration) => {
                let source: u128 = registration.source_id.as_u128();
                let schema: u128 = registration.schema_id.as_u128();
                let day: Option<String> = format_date(registration.times.event_day);
                DurableRecoveryOutput::Segment {
                    segment_id: format_uuid(registration.segment_id.value),
                    source_id: format_uuid(source),
                    schema_id: format_uuid(schema),
                    event_day: match day {
                        Some(text) => text,
                        None => String::new(),
                    },
                    minimum_event_time_micros: registration.times.minimum_event_time_micros,
                    maximum_event_time_micros: registration.times.maximum_event_time_micros,
                    minimum_ingestion_time_micros: registration.times.minimum_ingestion_time_micros,
                    maximum_ingestion_time_micros: registration.times.maximum_ingestion_time_micros,
                    row_count: registration.row_count,
                    uncompressed_bytes: registration.uncompressed_bytes,
                    object: DurableObjectDescriptor::from_descriptor(&registration.object),
                }
            },
            RecoveryOutput::DeadLetter(registration) => {
                let input: u128 = registration.input_id.as_u128();
                let batch: u128 = registration.batch_id.as_u128();
                DurableRecoveryOutput::DeadLetter {
                    input_id: format_uuid(input),
                    batch_id: format_uuid(batch),
                    object: DurableObjectDescriptor::from_descriptor(&registration.object),
                }
            },
        }
    }
}

/// Whether an output is one that can be read back: its counts and its format version are positive
/// and its instants are in order.
pub open spec fn output_storable(output: OutputView) -> bool {
    &&& output.object().format_version > 0
    &&& match output {
        OutputView::Segment { times, row_count, uncompressed_bytes, .. } => {
            &&& times_representable(times)
            &&& times_valid(times)
            &&& row_count > 0
            &&& uncompressed_bytes > 0
        },
        OutputView::DeadLetter { .. } => true,
    }
}

/// Whether the instants of a segment can be stored.
fn times_storable(times: IngestionSegmentTimes) -> (r: bool)
    ensures
        r == (times_representable(times) && times_valid(times)),
{
    let first: Option<i32> = day_of_micros(times.minimum_event_time_micros);
    let last: Option<i32> = day_of_micros(times.maximum_event_time_micros);
    let admitted_first: Option<i32> = day_of_micros(times.minimum_ingestion_time_micros);
    let admitted_last: Option<i32> = day_of_micros(times.maximum_ingestion_time_micros);
    match (first, last, admitted_first, admitted_last) {
        (Some(first_day), Some(last_day), Some(_), Some(_)) => times.minimum_event_time_micros
            <= times.maximum_event_time_micros && times.minimum_ingestion_time_micros
            <= times.maximum_ingestion_time_micros && first_day == times.event_day && last_day
            == times.event_day,
        _ => false,
    }
}

/// Whether a record covers exactly what its output holds, and its values can be stored.
pub fn is_storable(record: &OutputRecoveryRecord) -> (r: bool)
    ensures
        r == (record@.consistent() && output_storable(record@.output)),
{
    let covered: u64 = match validate_coverage(&record.coverage) {
        Ok(covered) => covered,
        Err(_) => {
            return false;
        },
    };
    if record.revision == 0 || record.output.object().format_version == 0 {
        return false;
    }
    match &record.output {
        RecoveryOutput::Segment(registration) => covered == registration.row_count
            && registration.row_count > 0 && registration.uncompressed_bytes > 0 && times_storable(
            registration.times,
        ),
        RecoveryOutput::DeadLetter(registration) => record.coverage.len() == 1
            && record.coverage[0].batch_id() == registration.batch_id,
    }
}

impl DurableRecoveryRecord {
    /// The stored form of a record. Reading it back gives the record.
    pub fn from_record(record: &OutputRecoveryRecord) -> (r: Self)
        requires
            record@.consistent(),
            output_storable(record@.output),
        ensures
            stores_record(r, record@),
            forall|expected: ExpectedObject|
                expected.key@ == record@.output.object().key && expected.media_type@
                    == record@.output.object().media_type ==> #[trigger] record_of(r, expected)
                    == Ok::<RecordView, RecoveryLogCorruption>(record@),
    {
        let mut coverage: Vec<DurableBatchCoverage> = Vec::new();
        let mut index: usize = 0;
        let ghost views = coverage_views(record.coverage@);
        assert(views.subrange(0, 0) =~= Seq::empty());
        while index < record.coverage.len()
            invariant
                index <= record.coverage@.len(),
                coverage@.len() == index,
                views == coverage_views(record.coverage@),
                stores_coverage(coverage@, views.subrange(0, index as int)),
                items_of(coverage@) == Ok::<Seq<CoverageView>, RecoveryLogCorruption>(
                    views.subrange(0, index as int),
                ),
            decreases record.coverage@.len() - index,
        {
            let ghost before = coverage@;
            coverage.push(DurableBatchCoverage::from_coverage(&record.coverage[index]));
            proof {
                assert(coverage@.drop_last() =~= before);
                assert(views.subrange(0, index + 1) =~= views.subrange(0, index as int).push(
                    views[index as int],
                ));
            }
            index = index + 1;
        }
        assert(views.subrange(0, index as int) =~= views);
        let id: OutputRecoveryId = record.id;
        proof {
            use_type_invariant(&id);
        }
        DurableRecoveryRecord {
            recovery_id: format_uuid(id.as_u128()),
            revision: record.revision,
            output: DurableRecoveryOutput::from_output(&record.output),
            coverage,
        }
    }

    /// The record that stored values spell.
    pub fn into_record(self, expected: &ExpectedObject) -> (r: Result<
        OutputRecoveryRecord,
        RecoveryLogCorruption,
    >)
        ensures
            match r {
                Ok(record) => record_of(self, *expected) == Ok::<RecordView, RecoveryLogCorruption>(
                    record@,
                ),
                Err(e) => record_of(self, *expected) == Err::<RecordView, RecoveryLogCorruption>(e),
            },
    {
        let value: u128 = match read_identity(
            &self.recovery_id,
            RecoveryLogCorruption::RecoveryIdentity,
        ) {
            Ok(value) => value,
            Err(e) => {
                return Err(e);
            },
        };
        let id: OutputRecoveryId = match OutputRecoveryId::new(value) {
            Ok(id) => id,
            Err(_) => {
                return Err(RecoveryLogCorruption::RecoveryIdentity);
            },
        };
        if self.revision == 0 {
            return Err(RecoveryLogCorruption::RevisionZero);
        }
        let revision: u64 = self.revision;
        let coverage: Vec<BatchPositionCoverage> = match read_coverage(self.coverage) {
            Ok(coverage) => coverage,
            Err(e) => {
                return Err(e);
            },
        };
        let covered_rows: u64 = match validate_coverage(&coverage) {
            Ok(count) => count,
            Err(_) => {
                return Err(RecoveryLogCorruption::Coverage);
            },
        };
        let output: RecoveryOutput = match self.output.into_output(expected) {
            Ok(output) => output,
            Err(e) => {
                return Err(e);
            },
        };
        match &output {
            RecoveryOutput::Segment(registration) => {
                if covered_rows != registration.row_count {
                    return Err(RecoveryLogCorruption::SegmentRows);
                }
            },
            RecoveryOutput::DeadLetter(registration) => {
                if coverage.len() != 1 || coverage[0].batch_id() != registration.batch_id {
                    return Err(RecoveryLogCorruption::DeadLetterCoverage);
                }
            },
        }
        Ok(OutputRecoveryRecord { id, revision, output, coverage })
    }
}

/// A fault of the first items is the fault of all of them.
proof fn lemma_items_fault_persists(durable: Seq<DurableBatchCoverage>, count: int)
    requires
        0 <= count <= durable.len(),
        items_of(durable.subrange(0, count)) is Err,
    ensures
        items_of(durable) == items_of(durable.subrange(0, count)),
    decreases durable.len(),
{
    if count < durable.len() {
        assert(durable.drop_last().subrange(0, count) =~= durable.subrange(0, count));
        lemma_items_fault_persists(durable.drop_last(), count);
    } else {
        assert(durable.subrange(0, count) =~= durable);
    }
}

/// The coverage that stored values spell.
fn read_coverage(durable: Vec<DurableBatchCoverage>) -> (r: Result<
    Vec<BatchPositionCoverage>,
    RecoveryLogCorruption,
>)
    ensures
        match r {
            Ok(coverage) => items_of(durable@) == Ok::<Seq<CoverageView>, RecoveryLogCorruption>(
                coverage_views(coverage@),
            ),
            Err(e) => items_of(durable@) == Err::<Seq<CoverageView>, RecoveryLogCorruption>(e),
        },
{
    let ghost all = durable@;
    let mut coverage: Vec<BatchPositionCoverage> = Vec::new();
    assert(all.subrange(0, 0) =~= Seq::empty());
    assert(coverage_views(coverage@) =~= Seq::empty());
    for item in iter: durable
        invariant
            iter.seq() == all,
            items_of(all.subrange(0, iter.index() as int)) == Ok::<
                Seq<CoverageView>,
                RecoveryLogCorruption,
            >(coverage_views(coverage@)),
    {
        let ghost at = iter.index() as int;
        let ghost through = all.subrange(0, at + 1);
        let ghost before = coverage_views(coverage@);
        assert(through.drop_last() =~= all.subrange(0, at));
        assert(through.last() == item);
        match item.into_coverage() {
            Ok(covered) => {
                coverage.push(covered);
                assert(coverage_views(coverage@) =~= before.push(covered@));
            },
            Err(e) => {
                proof {
                    lemma_items_fault_persists(all, at + 1);
                }
                return Err(e);
            },
        }
    }
    assert(all.subrange(0, all.len() as int) =~= all);
    Ok(coverage)
}

/// Whether a text spells an identity that is ordered by time.
pub open spec fn spells_identity(text: Seq<char>, value: u128) -> bool {
    uuid_value(text) == Some(value) && is_uuid_v7(value)
}

/// Whether an item of a coverage is the one that is stored: the same batch, the same range, which is
/// not empty, and the same positions, of which there is one and each is greater than the one before.
pub open(crate) spec fn item_is_stored(durable: DurableBatchCoverage, item: CoverageView) -> bool {
    &&& spells_identity(durable.batch_id@, item.batch_id.spec_value())
    &&& item.spool_range.spec_start().position == durable.spool_start
    &&& item.spool_range.spec_end().position == durable.spool_end
    &&& durable.spool_start < durable.spool_end
    &&& item.positions == durable.positions@
    &&& item.positions.len() > 0
    &&& forall|p: int, q: int|
        0 <= p < q < item.positions.len() ==> item.positions[p] < item.positions[q]
}

/// Whether an object is the one that is stored, and lies where it is expected.
pub open spec fn object_is_stored(
    durable: DurableObjectDescriptor,
    expected: ExpectedObject,
    object: ObjectView,
) -> bool {
    &&& uuid_value(durable.object_id@) == Some(object.object_id.value)
    &&& object.key == durable.object_key@ && object.key == expected.key@
    &&& object.media_type == durable.media_type@ && object.media_type == expected.media_type@
    &&& object.expected_byte_size == durable.expected_byte_size
    &&& object.digest == durable.digest@
    &&& object.format_version == durable.format_version && object.format_version > 0
}

/// Whether an output is the one that is stored. A segment has rows and bytes, and its first and last
/// event fall on its day, the first not behind the last.
pub open(crate) spec fn output_is_stored(
    durable: DurableRecoveryOutput,
    expected: ExpectedObject,
    output: OutputView,
) -> bool {
    match (durable, output) {
        (
            DurableRecoveryOutput::Segment {
                segment_id,
                source_id,
                schema_id,
                event_day,
                minimum_event_time_micros,
                maximum_event_time_micros,
                minimum_ingestion_time_micros,
                maximum_ingestion_time_micros,
                row_count,
                uncompressed_bytes,
                object,
            },
            OutputView::Segment {
                segment_id: segment,
                source_id: source,
                schema_id: schema,
                times,
                row_count: rows,
                uncompressed_bytes: bytes,
                object: described,
            },
        ) => {
            &&& uuid_value(segment_id@) == Some(segment.value)
            &&& spells_identity(source_id@, source.spec_value())
            &&& spells_identity(schema_id@, schema.spec_value())
            &&& date_day(event_day@) == Some(times.event_day)
            &&& times.minimum_event_time_micros == minimum_event_time_micros
            &&& times.maximum_event_time_micros == maximum_event_time_micros
            &&& times.minimum_ingestion_time_micros == minimum_ingestion_time_micros
            &&& times.maximum_ingestion_time_micros == maximum_ingestion_time_micros
            &&& minimum_event_time_micros <= maximum_event_time_micros
            &&& minimum_ingestion_time_micros <= maximum_ingestion_time_micros
            &&& utc_day(minimum_event_time_micros as int / 1000) == times.event_day
            &&& utc_day(maximum_event_time_micros as int / 1000) == times.event_day
            &&& rows == row_count && rows > 0
            &&& bytes == uncompressed_bytes && bytes > 0
            &&& object_is_stored(object, expected, described)
        },
        (
            DurableRecoveryOutput::DeadLetter { input_id, batch_id, object },
            OutputView::DeadLetter { input_id: input, batch_id: batch, object: described },
        ) => {
            &&& spells_identity(input_id@, input.spec_value())
            &&& spells_identity(batch_id@, batch.spec_value())
            &&& object_is_stored(object, expected, described)
        },
        _ => false,
    }
}

proof fn lemma_items_stored(durable: Seq<DurableBatchCoverage>)
    ensures
        items_of(durable) matches Ok(items) ==> {
            &&& items.len() == durable.len()
            &&& forall|i: int|
                0 <= i < items.len() ==> item_is_stored(durable[i], #[trigger] items[i])
        },
    decreases durable.len(),
{
    if durable.len() > 0 {
        lemma_items_stored(durable.drop_last());
        if let Ok(items) = items_of(durable) {
            let before = items_of(durable.drop_last())->Ok_0;
            let last = item_of(durable.last())->Ok_0;
            assert(items == before.push(last));
            assert(item_is_stored(durable.last(), last));
            assert forall|i: int| 0 <= i < items.len() implies item_is_stored(
                durable[i],
                #[trigger] items[i],
            ) by {
                if i < before.len() {
                    assert(items[i] == before[i]);
                    assert(durable.drop_last()[i] == durable[i]);
                }
            }
        }
    }
}

/// A record that is read is the one that is stored, with everything that it covers, and covers what
/// its output holds: a segment one position for each of its rows, a dead letter positions of its
/// batch alone.
pub proof fn read_records_are_those_stored(
    durable: DurableRecoveryRecord,
    expected: ExpectedObject,
)
    ensures
        record_of(durable, expected) matches Ok(record) ==> {
            &&& spells_identity(durable.recovery_id@, record.id.spec_value())
            &&& record.revision == durable.revision && record.revision > 0
            &&& output_is_stored(durable.output, expected, record.output)
            &&& record.coverage.len() == durable.coverage@.len()
            &&& forall|i: int|
                0 <= i < record.coverage.len() ==> item_is_stored(
                    durable.coverage@[i],
                    #[trigger] record.coverage[i],
                )
            &&& match record.output {
                OutputView::Segment { row_count, .. } => covered_positions(record.coverage)
                    == row_count,
                OutputView::DeadLetter { batch_id, .. } => record.coverage.len() == 1
                    && record.coverage[0].batch_id == batch_id,
            }
        },
{
    lemma_items_stored(durable.coverage@);
}

} // verus!
