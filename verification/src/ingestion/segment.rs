//! Segments: rows of one source, schema and event day, gathered until they are sealed.

use vstd::prelude::*;

use crate::calendar::{
    date_of, is_date_of, utc_day, MAXIMUM_UNIX_MILLISECONDS,
    MINIMUM_UNIX_MILLISECONDS,
};
use crate::codec::{be_value, read_be};
use crate::identity::{BatchId, SchemaId, SourceId};
use crate::ingestion::model::{BatchMetadata, IngestionTime};
use crate::ingestion::record::{
    AcceptedRow, DeadLetterEntry, EventTime, NormalizedBatch,
};

verus! {

pub const TARGET_SEGMENT_ROWS: usize = 50_000;

pub const TARGET_SEGMENT_ESTIMATED_BYTES: u64 = 67_108_864;

/// Ten seconds.
pub const MAXIMUM_SEGMENT_OPEN_NANOSECONDS: u128 = 10_000_000_000;

pub const MAXIMUM_OPEN_SEGMENT_BUILDERS: usize = 32;

pub const MAXIMUM_SEGMENT_BUILDER_MEMORY_BYTES: u64 = 268_435_456;

/// A day, counted from the Unix epoch, that holds a representable instant.
#[derive(Clone, Copy, Debug, PartialEq, Eq, PartialOrd, Ord, Hash, Structural)]
pub struct EventDay {
    pub(crate) day: i32,
}

impl EventDay {
    #[verifier::type_invariant]
    pub(crate) open(crate) spec fn valid(self) -> bool {
        utc_day(MINIMUM_UNIX_MILLISECONDS as int) <= self.day <= utc_day(
            MAXIMUM_UNIX_MILLISECONDS as int,
        )
    }

    pub open(crate) spec fn spec_day(self) -> i32 {
        self.day
    }

    /// The day on which an event happened.
    pub fn from_event_time(event_time: EventTime) -> (r: Self)
        ensures
            r.spec_day() == utc_day(event_time.spec_milliseconds() as int),
    {
        proof {
            use_type_invariant(&event_time);
        }
        let day: i32 = event_time.day();
        EventDay { day }
    }

    /// The year, month and day of month.
    pub fn as_date(self) -> (r: (i32, u32, u32))
        ensures
            is_date_of(r, self.spec_day() as int),
    {
        proof {
            use_type_invariant(&self);
        }
        date_of(self.day)
    }

    /// The day counted from the Unix epoch.
    pub fn epoch_day(self) -> (r: i32)
        ensures
            r == self.spec_day(),
    {
        self.day
    }
}

/// What the rows of a segment have in common.
#[derive(Clone, Copy, Debug, PartialEq, Eq, PartialOrd, Ord, Hash, Structural)]
pub struct SegmentKey {
    pub source_id: SourceId,
    pub schema_id: SchemaId,
    pub event_day: EventDay,
}

impl SegmentKey {
    pub fn new(source_id: SourceId, schema_id: SchemaId, event_day: EventDay) -> (r: Self)
        ensures
            r == (SegmentKey { source_id, schema_id, event_day }),
    {
        SegmentKey { source_id, schema_id, event_day }
    }

    pub fn source_id(self) -> (r: SourceId)
        ensures
            r == self.source_id,
    {
        self.source_id
    }

    pub fn schema_id(self) -> (r: SchemaId)
        ensures
            r == self.schema_id,
    {
        self.schema_id
    }

    pub fn event_day(self) -> (r: EventDay)
        ensures
            r == self.event_day,
    {
        self.event_day
    }

    /// Keys are ordered by source, then by schema, then by day.
    pub open(crate) spec fn before(self, other: SegmentKey) -> bool {
        ||| self.source_id.value < other.source_id.value
        ||| self.source_id.value == other.source_id.value && (self.schema_id.value
            < other.schema_id.value || self.schema_id.value == other.schema_id.value
            && self.event_day.day < other.event_day.day)
    }

    pub(crate) fn comes_before(self, other: SegmentKey) -> (r: bool)
        ensures
            r == self.before(other),
    {
        let left: u128 = self.source_id.as_u128();
        let right: u128 = other.source_id.as_u128();
        if left != right {
            return left < right;
        }
        let left: u128 = self.schema_id.as_u128();
        let right: u128 = other.schema_id.as_u128();
        if left != right {
            return left < right;
        }
        self.event_day.day < other.event_day.day
    }
}

/// A row of a segment.
#[derive(Debug)]
pub struct SegmentRow {
    pub batch_id: BatchId,
    pub row: AcceptedRow,
    pub estimated_uncompressed_bytes: u64,
    pub estimated_resident_bytes: u64,
}

impl SegmentRow {
    pub fn batch_id(&self) -> (r: BatchId)
        ensures
            r == self.batch_id,
    {
        self.batch_id
    }

    pub fn row(&self) -> (r: &AcceptedRow)
        ensures
            r == self.row,
    {
        &self.row
    }

    pub fn estimated_uncompressed_bytes(&self) -> (r: u64)
        ensures
            r == self.estimated_uncompressed_bytes,
    {
        self.estimated_uncompressed_bytes
    }

    pub fn estimated_resident_bytes(&self) -> (r: u64)
        ensures
            r == self.estimated_resident_bytes,
    {
        self.estimated_resident_bytes
    }
}

/// The event time by which a row is ordered first.
pub open spec fn row_time(row: SegmentRow) -> i64 {
    row.row.event_time.spec_milliseconds()
}

/// The event identity by which a row is ordered next, as a number.
pub open spec fn row_identity(row: SegmentRow) -> int {
    be_value(row.row.event_id.bytes@)
}

/// Whether no row comes before one with an earlier event time, or with the same event time and a
/// smaller event identity.
pub open spec fn rows_sorted(rows: Seq<SegmentRow>) -> bool {
    forall|i: int, j: int|
        #![trigger rows[i], rows[j]]
        0 <= i < j < rows.len() ==> row_time(rows[i]) < row_time(rows[j]) || row_time(rows[i])
            == row_time(rows[j]) && row_identity(rows[i]) <= row_identity(rows[j])
}

/// The two numbers by which a row is ordered.
fn row_order(row: &SegmentRow) -> (r: (i64, u128))
    ensures
        r.0 == row_time(*row),
        r.1 == row_identity(*row),
{
    let time: i64 = row.row.event_time.unix_milliseconds();
    let identity: u128 = read_be(row.row.event_id.bytes.as_slice(), 0, 16);
    assert(row.row.event_id.bytes@.subrange(0, 16) =~= row.row.event_id.bytes@);
    (time, identity)
}

/// Whether a row is ordered strictly before another.
pub open spec fn row_before(row: SegmentRow, other: SegmentRow) -> bool {
    row_time(row) < row_time(other) || row_time(row) == row_time(other) && row_identity(row)
        < row_identity(other)
}

/// The rows with this event time and this event identity, in their order.
pub open spec fn rows_with_key(rows: Seq<SegmentRow>, time: i64, identity: int) -> Seq<SegmentRow>
    decreases rows.len(),
{
    if rows.len() == 0 {
        Seq::empty()
    } else {
        let earlier = rows_with_key(rows.drop_last(), time, identity);
        if row_time(rows.last()) == time && row_identity(rows.last()) == identity {
            earlier.push(rows.last())
        } else {
            earlier
        }
    }
}

/// Calls `slice::sort_by_key` with the two numbers by which a row is ordered. Claimed of it: it
/// rearranges the rows so that no key exceeds a later one, and rows with the same key stay in their
/// order.
#[verifier::external_body]
fn sort_rows(rows: &mut Vec<SegmentRow>)
    ensures
        final(rows)@.len() == old(rows)@.len(),
        rows_sorted(final(rows)@),
        forall|time: i64, identity: int| #[trigger]
            rows_with_key(final(rows)@, time, identity) == rows_with_key(
                old(rows)@,
                time,
                identity,
            ),
{
    rows.sort_by_key(|row| row_order(row));
}

/// Sorted rows with one row more, behind those that it is not ordered before.
pub open spec fn with_row(sorted: Seq<SegmentRow>, row: SegmentRow) -> Seq<SegmentRow>
    decreases sorted.len(),
{
    if sorted.len() > 0 && row_before(row, sorted.last()) {
        with_row(sorted.drop_last(), row).push(sorted.last())
    } else {
        sorted.push(row)
    }
}

/// Rows in the order in which a segment keeps them: by event time, then by event identity, then as
/// they came.
pub open spec fn in_order(rows: Seq<SegmentRow>) -> Seq<SegmentRow>
    decreases rows.len(),
{
    if rows.len() == 0 {
        Seq::empty()
    } else {
        with_row(in_order(rows.drop_last()), rows.last())
    }
}

proof fn lemma_with_row(sorted: Seq<SegmentRow>, row: SegmentRow)
    requires
        rows_sorted(sorted),
    ensures
        with_row(sorted, row).len() == sorted.len() + 1,
        rows_sorted(with_row(sorted, row)),
        with_row(sorted, row).to_multiset() == sorted.to_multiset().insert(row),
        forall|i: int|
            0 <= i <= sorted.len() ==> (#[trigger] with_row(sorted, row)[i]) == row
                || sorted.contains(with_row(sorted, row)[i]),
        forall|time: i64, identity: int| #[trigger]
            rows_with_key(with_row(sorted, row), time, identity) == if row_time(row) == time
                && row_identity(row) == identity {
                rows_with_key(sorted, time, identity).push(row)
            } else {
                rows_with_key(sorted, time, identity)
            },
    decreases sorted.len(),
{
    broadcast use vstd::seq_lib::group_to_multiset_ensures;

    let after = with_row(sorted, row);
    if sorted.len() > 0 && row_before(row, sorted.last()) {
        let front = sorted.drop_last();
        let last = sorted.last();
        lemma_with_row(front, row);
        assert(after.drop_last() =~= with_row(front, row));
        assert forall|i: int| 0 <= i < after.len() - 1 implies (#[trigger] after[i]) == row
            || sorted.contains(after[i]) && !row_before(last, after[i]) by {
            assert(after[i] == with_row(front, row)[i]);
            if after[i] != row {
                let k = choose|k: int| 0 <= k < front.len() && front[k] == after[i];
                assert(sorted[k] == after[i]);
                assert(sorted[sorted.len() - 1] == last);
            }
        }
        assert(after[after.len() - 1] == last);
        assert(sorted.contains(last)) by {
            assert(sorted[sorted.len() - 1] == last);
        }
        assert forall|time: i64, identity: int| #[trigger]
            rows_with_key(after, time, identity) == if row_time(row) == time && row_identity(row)
                == identity {
                rows_with_key(sorted, time, identity).push(row)
            } else {
                rows_with_key(sorted, time, identity)
            } by {
            assert(rows_with_key(after.drop_last(), time, identity) == rows_with_key(
                with_row(front, row),
                time,
                identity,
            ));
        }
        assert(front.push(last) =~= sorted);
        assert(after.to_multiset() =~= sorted.to_multiset().insert(row));
    } else {
        assert(after.drop_last() =~= sorted);
        assert forall|time: i64, identity: int| #[trigger]
            rows_with_key(after, time, identity) == if row_time(row) == time && row_identity(row)
                == identity {
                rows_with_key(sorted, time, identity).push(row)
            } else {
                rows_with_key(sorted, time, identity)
            } by {
            assert(after.last() == row);
        }
        assert forall|i: int| 0 <= i < sorted.len() implies !row_before(
            row,
            #[trigger] sorted[i],
        ) by {
            assert(sorted[sorted.len() - 1] == sorted.last());
        }
        assert forall|i: int| 0 <= i <= sorted.len() implies (#[trigger] after[i]) == row
            || sorted.contains(after[i]) by {
            if i < sorted.len() {
                assert(sorted[i] == after[i]);
            }
        }
    }
}

proof fn lemma_in_order(rows: Seq<SegmentRow>)
    ensures
        in_order(rows).len() == rows.len(),
        rows_sorted(in_order(rows)),
        in_order(rows).to_multiset() == rows.to_multiset(),
        forall|time: i64, identity: int| #[trigger]
            rows_with_key(in_order(rows), time, identity) == rows_with_key(rows, time, identity),
    decreases rows.len(),
{
    broadcast use vstd::seq_lib::group_to_multiset_ensures;

    if rows.len() > 0 {
        lemma_in_order(rows.drop_last());
        lemma_with_row(in_order(rows.drop_last()), rows.last());
        assert(rows.drop_last().push(rows.last()) =~= rows);
    } else {
        assert(in_order(rows) =~= rows);
    }
}

proof fn lemma_key_occurs(rows: Seq<SegmentRow>, time: i64, identity: int)
    requires
        rows_with_key(rows, time, identity).len() > 0,
    ensures
        exists|i: int|
            0 <= i < rows.len() && row_time(#[trigger] rows[i]) == time && row_identity(rows[i])
                == identity,
    decreases rows.len(),
{
    let last = rows.last();
    assert(rows[rows.len() - 1] == last);
    if row_time(last) != time || row_identity(last) != identity {
        let front = rows.drop_last();
        lemma_key_occurs(front, time, identity);
        let i = choose|i: int|
            0 <= i < front.len() && row_time(#[trigger] front[i]) == time && row_identity(front[i])
                == identity;
        assert(rows[i] == front[i]);
    }
}

/// Only one sequence is sorted and keeps the order of the rows with each key.
proof fn lemma_order_is_unique(left: Seq<SegmentRow>, right: Seq<SegmentRow>)
    requires
        left.len() == right.len(),
        rows_sorted(left),
        rows_sorted(right),
        forall|time: i64, identity: int| #[trigger]
            rows_with_key(left, time, identity) == rows_with_key(right, time, identity),
    ensures
        left == right,
    decreases left.len(),
{
    if left.len() > 0 {
        let a = left.last();
        let b = right.last();
        assert(left[left.len() - 1] == a && right[right.len() - 1] == b);
        let by_a = rows_with_key(left, row_time(a), row_identity(a));
        let by_b = rows_with_key(right, row_time(b), row_identity(b));
        assert(by_a.last() == a && by_b.last() == b);
        lemma_key_occurs(right, row_time(a), row_identity(a));
        lemma_key_occurs(left, row_time(b), row_identity(b));
        assert(row_time(a) == row_time(b) && row_identity(a) == row_identity(b));
        assert(a == b);
        assert forall|time: i64, identity: int| #[trigger]
            rows_with_key(left.drop_last(), time, identity) == rows_with_key(
                right.drop_last(),
                time,
                identity,
            ) by {
            let all = rows_with_key(left, time, identity);
            assert(all == rows_with_key(right, time, identity));
            if row_time(a) == time && row_identity(a) == identity {
                assert(all.drop_last() =~= rows_with_key(left.drop_last(), time, identity));
                assert(all.drop_last() =~= rows_with_key(right.drop_last(), time, identity));
            }
        }
        lemma_order_is_unique(left.drop_last(), right.drop_last());
        assert(left =~= left.drop_last().push(a));
        assert(right =~= right.drop_last().push(b));
    } else {
        assert(left =~= right);
    }
}

/// Ordering rows neither loses nor invents one.
pub proof fn ordering_keeps_rows(rows: Seq<SegmentRow>)
    ensures
        in_order(rows).to_multiset() == rows.to_multiset(),
        rows_sorted(in_order(rows)),
{
    lemma_in_order(rows);
}

/// The earliest and the latest instants of a segment.
#[derive(Clone, Copy, Debug, PartialEq, Eq, Structural)]
pub struct SegmentTimeBounds {
    pub minimum_event_time: EventTime,
    pub maximum_event_time: EventTime,
    pub minimum_ingestion_time: IngestionTime,
    pub maximum_ingestion_time: IngestionTime,
}

impl SegmentTimeBounds {
    /// Whether these are the earliest and the latest instants of rows.
    pub open spec fn bound(self, rows: Seq<SegmentRow>) -> bool {
        &&& forall|i: int|
            0 <= i < rows.len() ==> self.minimum_event_time.spec_milliseconds() <= row_time(
                #[trigger] rows[i],
            ) <= self.maximum_event_time.spec_milliseconds()
                && self.minimum_ingestion_time.spec_milliseconds()
                <= rows[i].row.ingestion_time.spec_milliseconds()
                <= self.maximum_ingestion_time.spec_milliseconds()
        &&& exists|i: int|
            0 <= i < rows.len() && (#[trigger] rows[i]).row.event_time == self.minimum_event_time
        &&& exists|i: int|
            0 <= i < rows.len() && (#[trigger] rows[i]).row.event_time == self.maximum_event_time
        &&& exists|i: int|
            0 <= i < rows.len() && (#[trigger] rows[i]).row.ingestion_time
                == self.minimum_ingestion_time
        &&& exists|i: int|
            0 <= i < rows.len() && (#[trigger] rows[i]).row.ingestion_time
                == self.maximum_ingestion_time
    }

    pub fn minimum_event_time(self) -> (r: EventTime)
        ensures
            r == self.minimum_event_time,
    {
        self.minimum_event_time
    }

    pub fn maximum_event_time(self) -> (r: EventTime)
        ensures
            r == self.maximum_event_time,
    {
        self.maximum_event_time
    }

    pub fn minimum_ingestion_time(self) -> (r: IngestionTime)
        ensures
            r == self.minimum_ingestion_time,
    {
        self.minimum_ingestion_time
    }

    pub fn maximum_ingestion_time(self) -> (r: IngestionTime)
        ensures
            r == self.maximum_ingestion_time,
    {
        self.maximum_ingestion_time
    }
}

/// Which of the two budgets is meant.
#[derive(Clone, Copy, Debug, PartialEq, Eq, Hash, Structural)]
pub enum SegmentCapacity {
    ResidentMemory,
    Staging,
}

impl SegmentCapacity {
    pub open spec fn spec_name(self) -> Seq<char> {
        match self {
            SegmentCapacity::ResidentMemory => "resident memory"@,
            SegmentCapacity::Staging => "local staging"@,
        }
    }

    pub fn as_str(self) -> (r: &'static str)
        ensures
            r@ == self.spec_name(),
    {
        match self {
            SegmentCapacity::ResidentMemory => "resident memory",
            SegmentCapacity::Staging => "local staging",
        }
    }
}

/// Why a segment was sealed.
#[derive(Clone, Copy, Debug, PartialEq, Eq, Hash, Structural)]
pub enum SealingReason {
    RowTarget,
    ByteTarget,
    MaximumAge,
    BuilderLimit,
    CapacityPressure(SegmentCapacity),
    Flush,
}

/// A segment that takes no more rows.
#[derive(Debug)]
pub struct SealedSegment {
    pub key: SegmentKey,
    pub rows: Vec<SegmentRow>,
    pub estimated_uncompressed_bytes: u64,
    pub estimated_resident_bytes: u64,
    pub bounds: SegmentTimeBounds,
    pub sealing_reason: SealingReason,
}

/// What a sealed segment holds.
#[verifier::ext_equal]
pub struct SealedView {
    pub key: SegmentKey,
    pub rows: Seq<SegmentRow>,
    pub uncompressed: u64,
    pub resident: u64,
    pub reason: SealingReason,
}

impl View for SealedSegment {
    type V = SealedView;

    open spec fn view(&self) -> SealedView {
        SealedView {
            key: self.key,
            rows: self.rows@,
            uncompressed: self.estimated_uncompressed_bytes,
            resident: self.estimated_resident_bytes,
            reason: self.sealing_reason,
        }
    }
}

impl SealedSegment {
    /// The rows are sorted, fall on the segment's day, lie within its bounds, and sum up to its
    /// estimates.
    pub open spec fn well_formed(self) -> bool {
        &&& self.rows@.len() > 0
        &&& self.estimated_uncompressed_bytes == rows_uncompressed(self.rows@)
        &&& self.estimated_resident_bytes == rows_resident(self.rows@)
        &&& rows_sorted(self.rows@)
        &&& self.bounds.bound(self.rows@)
        &&& forall|i: int|
            0 <= i < self.rows@.len() ==> utc_day(row_time(#[trigger] self.rows@[i]) as int)
                == self.key.event_day.spec_day()
    }

    pub fn key(&self) -> (r: SegmentKey)
        ensures
            r == self.key,
    {
        self.key
    }

    pub fn source_id(&self) -> (r: SourceId)
        ensures
            r == self.key.source_id,
    {
        self.key.source_id
    }

    pub fn schema_id(&self) -> (r: SchemaId)
        ensures
            r == self.key.schema_id,
    {
        self.key.schema_id
    }

    pub fn event_day(&self) -> (r: EventDay)
        ensures
            r == self.key.event_day,
    {
        self.key.event_day
    }

    pub fn rows(&self) -> (r: &Vec<SegmentRow>)
        ensures
            r == self.rows,
    {
        &self.rows
    }

    pub fn row_count(&self) -> (r: u64)
        ensures
            r == self.rows@.len(),
    {
        self.rows.len() as u64
    }

    pub fn estimated_uncompressed_bytes(&self) -> (r: u64)
        ensures
            r == self.estimated_uncompressed_bytes,
    {
        self.estimated_uncompressed_bytes
    }

    pub fn estimated_resident_bytes(&self) -> (r: u64)
        ensures
            r == self.estimated_resident_bytes,
    {
        self.estimated_resident_bytes
    }

    pub fn bounds(&self) -> (r: SegmentTimeBounds)
        ensures
            r == self.bounds,
    {
        self.bounds
    }

    pub fn sealing_reason(&self) -> (r: SealingReason)
        ensures
            r == self.sealing_reason,
    {
        self.sealing_reason
    }
}

/// What became of a batch beside its rows.
#[derive(Debug)]
pub struct SegmentBuildSummary {
    pub metadata: BatchMetadata,
    pub dead_letters: Vec<DeadLetterEntry>,
    pub ignored_records: u64,
}

impl SegmentBuildSummary {
    pub fn metadata(&self) -> (r: BatchMetadata)
        ensures
            r == self.metadata,
    {
        self.metadata
    }

    pub fn dead_letters(&self) -> (r: &Vec<DeadLetterEntry>)
        ensures
            r == self.dead_letters,
    {
        &self.dead_letters
    }

    pub fn ignored_records(&self) -> (r: u64)
        ensures
            r == self.ignored_records,
    {
        self.ignored_records
    }
}

/// What became of a batch.
#[derive(Debug)]
pub enum SegmentBuildOutcome {
    Accepted(SegmentBuildSummary),
    Deferred { batch: NormalizedBatch, capacity: SegmentCapacity },
}

/// Why a capacity is refused.
#[derive(Clone, Copy, Debug, PartialEq, Eq, Structural)]
pub enum SegmentBuilderModelError {
    StagingCapacityMustBePositive,
}

impl SegmentBuilderModelError {
    pub fn message(self) -> (r: &'static str)
        ensures
            r@ == "segment staging capacity must be positive"@,
    {
        "segment staging capacity must be positive"
    }
}

/// The bytes reserved for the rows that await the staging writer.
#[derive(Clone, Copy, Debug, PartialEq, Eq, PartialOrd, Ord, Hash, Structural)]
pub struct SegmentStagingCapacity {
    pub(crate) value: u64,
}

impl SegmentStagingCapacity {
    #[verifier::type_invariant]
    pub(crate) open(crate) spec fn valid(self) -> bool {
        self.value > 0
    }

    pub open(crate) spec fn spec_get(self) -> u64 {
        self.value
    }

    pub fn new(value: u64) -> (r: Result<Self, SegmentBuilderModelError>)
        ensures
            match r {
                Ok(capacity) => value > 0 && capacity.spec_get() == value,
                Err(e) => value == 0 && e
                    == SegmentBuilderModelError::StagingCapacityMustBePositive,
            },
    {
        if value == 0 {
            Err(SegmentBuilderModelError::StagingCapacityMustBePositive)
        } else {
            Ok(SegmentStagingCapacity { value })
        }
    }

    pub fn get(self) -> (r: u64)
        ensures
            r == self.spec_get(),
            r > 0,
    {
        proof {
            use_type_invariant(&self);
        }
        self.value
    }
}

/// How much the builders hold, and how much they may hold.
#[derive(Clone, Copy, Debug, PartialEq, Eq, Structural)]
pub struct SegmentBuilderUsage {
    pub open_builders: usize,
    pub sealed_segments: usize,
    pub estimated_resident_bytes: u64,
    pub estimated_staging_bytes: u64,
    pub maximum_estimated_resident_bytes: u64,
    pub maximum_staging_bytes: u64,
}

impl SegmentBuilderUsage {
    pub fn open_builders(self) -> (r: usize)
        ensures
            r == self.open_builders,
    {
        self.open_builders
    }

    pub fn sealed_segments(self) -> (r: usize)
        ensures
            r == self.sealed_segments,
    {
        self.sealed_segments
    }

    pub fn estimated_resident_bytes(self) -> (r: u64)
        ensures
            r == self.estimated_resident_bytes,
    {
        self.estimated_resident_bytes
    }

    pub fn estimated_staging_bytes(self) -> (r: u64)
        ensures
            r == self.estimated_staging_bytes,
    {
        self.estimated_staging_bytes
    }

    pub fn maximum_estimated_resident_bytes(self) -> (r: u64)
        ensures
            r == self.maximum_estimated_resident_bytes,
    {
        self.maximum_estimated_resident_bytes
    }

    pub fn maximum_staging_bytes(self) -> (r: u64)
        ensures
            r == self.maximum_staging_bytes,
    {
        self.maximum_staging_bytes
    }
}

/// When builders are sealed, and how much they may hold.
#[derive(Clone, Copy, Debug, PartialEq, Eq, Structural)]
pub struct SegmentBuildLimits {
    pub target_rows: usize,
    pub target_estimated_bytes: u64,
    pub maximum_open_nanoseconds: u128,
    pub maximum_open_builders: usize,
    pub maximum_estimated_resident_bytes: u64,
    pub maximum_staging_bytes: u64,
}

impl SegmentBuildLimits {
    pub open spec fn valid(self) -> bool {
        &&& self.target_rows > 0
        &&& self.target_estimated_bytes > 0
        &&& self.maximum_open_nanoseconds > 0
        &&& self.maximum_open_builders > 0
        &&& self.maximum_estimated_resident_bytes > 0
        &&& self.maximum_staging_bytes > 0
    }

    /// The limits that segments are built by.
    pub open spec fn spec_standard(staging_capacity: SegmentStagingCapacity) -> Self {
        SegmentBuildLimits {
            target_rows: TARGET_SEGMENT_ROWS,
            target_estimated_bytes: TARGET_SEGMENT_ESTIMATED_BYTES,
            maximum_open_nanoseconds: MAXIMUM_SEGMENT_OPEN_NANOSECONDS,
            maximum_open_builders: MAXIMUM_OPEN_SEGMENT_BUILDERS,
            maximum_estimated_resident_bytes: MAXIMUM_SEGMENT_BUILDER_MEMORY_BYTES,
            maximum_staging_bytes: staging_capacity.spec_get(),
        }
    }

    pub fn standard(staging_capacity: SegmentStagingCapacity) -> (r: Self)
        ensures
            r.valid(),
            r == SegmentBuildLimits::spec_standard(staging_capacity),
    {
        SegmentBuildLimits {
            target_rows: TARGET_SEGMENT_ROWS,
            target_estimated_bytes: TARGET_SEGMENT_ESTIMATED_BYTES,
            maximum_open_nanoseconds: MAXIMUM_SEGMENT_OPEN_NANOSECONDS,
            maximum_open_builders: MAXIMUM_OPEN_SEGMENT_BUILDERS,
            maximum_estimated_resident_bytes: MAXIMUM_SEGMENT_BUILDER_MEMORY_BYTES,
            maximum_staging_bytes: staging_capacity.get(),
        }
    }

    pub fn is_valid(self) -> (r: bool)
        ensures
            r == self.valid(),
    {
        self.target_rows > 0 && self.target_estimated_bytes > 0 && self.maximum_open_nanoseconds > 0
            && self.maximum_open_builders > 0 && self.maximum_estimated_resident_bytes > 0
            && self.maximum_staging_bytes > 0
    }
}

/// Why a batch cannot be built into segments.
#[derive(Clone, Copy, Debug, PartialEq, Eq, Structural)]
pub enum SegmentBuildError {
    EstimatedBytesOverflow,
    ClockMovedBackwards,
    AccessSequenceExhausted,
    BatchExceedsCapacity { capacity: SegmentCapacity, estimated_bytes: u64, maximum_bytes: u64 },
}

/// The stored bytes that rows are estimated at.
pub open spec fn rows_uncompressed(rows: Seq<SegmentRow>) -> nat
    decreases rows.len(),
{
    if rows.len() == 0 {
        0
    } else {
        rows_uncompressed(rows.drop_last()) + rows.last().estimated_uncompressed_bytes as nat
    }
}

/// The memory that rows are estimated at.
pub open spec fn rows_resident(rows: Seq<SegmentRow>) -> nat
    decreases rows.len(),
{
    if rows.len() == 0 {
        0
    } else {
        rows_resident(rows.drop_last()) + rows.last().estimated_resident_bytes as nat
    }
}

proof fn lemma_with_row_estimates(sorted: Seq<SegmentRow>, row: SegmentRow)
    ensures
        rows_uncompressed(with_row(sorted, row)) == rows_uncompressed(sorted)
            + row.estimated_uncompressed_bytes,
        rows_resident(with_row(sorted, row)) == rows_resident(sorted)
            + row.estimated_resident_bytes,
    decreases sorted.len(),
{
    if sorted.len() > 0 && row_before(row, sorted.last()) {
        let less = with_row(sorted.drop_last(), row);
        lemma_with_row_estimates(sorted.drop_last(), row);
        assert(less.push(sorted.last()).drop_last() =~= less);
    } else {
        assert(sorted.push(row).drop_last() =~= sorted);
    }
}

/// Ordering rows does not change what they are estimated at.
pub proof fn ordering_keeps_estimates(rows: Seq<SegmentRow>)
    ensures
        rows_uncompressed(in_order(rows)) == rows_uncompressed(rows),
        rows_resident(in_order(rows)) == rows_resident(rows),
    decreases rows.len(),
{
    if rows.len() > 0 {
        ordering_keeps_estimates(rows.drop_last());
        lemma_with_row_estimates(in_order(rows.drop_last()), rows.last());
    }
}

/// A segment that still takes rows.
#[derive(Debug)]
pub struct OpenSegment {
    pub(crate) key: SegmentKey,
    pub(crate) rows: Vec<SegmentRow>,
    pub(crate) estimated_uncompressed_bytes: u64,
    pub(crate) estimated_resident_bytes: u64,
    pub(crate) opened_at: u128,
    pub(crate) last_touched_sequence: u64,
}

/// What an open segment holds.
#[verifier::ext_equal]
pub struct OpenView {
    pub key: SegmentKey,
    pub rows: Seq<SegmentRow>,
    pub uncompressed: u64,
    pub resident: u64,
    pub opened_at: u128,
    pub touched: u64,
}

impl View for OpenSegment {
    type V = OpenView;

    open(crate) spec fn view(&self) -> OpenView {
        OpenView {
            key: self.key,
            rows: self.rows@,
            uncompressed: self.estimated_uncompressed_bytes,
            resident: self.estimated_resident_bytes,
            opened_at: self.opened_at,
            touched: self.last_touched_sequence,
        }
    }
}

impl OpenView {
    /// The rows fall on the segment's day, and the estimates are the sums of theirs.
    pub open spec fn well_formed(self) -> bool {
        &&& self.rows.len() > 0
        &&& self.uncompressed == rows_uncompressed(self.rows)
        &&& self.resident == rows_resident(self.rows)
        &&& forall|i: int|
            0 <= i < self.rows.len() ==> utc_day(row_time(#[trigger] self.rows[i]) as int)
                == self.key.event_day.spec_day()
    }

    /// The segment with one more row.
    pub open spec fn with_row(self, row: SegmentRow, touched: u64) -> OpenView {
        OpenView {
            rows: self.rows.push(row),
            uncompressed: (self.uncompressed + row.estimated_uncompressed_bytes) as u64,
            resident: (self.resident + row.estimated_resident_bytes) as u64,
            touched,
            ..self
        }
    }

    /// The segment that a first row opens.
    pub open spec fn opened(key: SegmentKey, row: SegmentRow, at: u128, touched: u64) -> OpenView {
        OpenView {
            key,
            rows: seq![row],
            uncompressed: row.estimated_uncompressed_bytes,
            resident: row.estimated_resident_bytes,
            opened_at: at,
            touched,
        }
    }

    /// The segment after sealing.
    pub open spec fn sealed(self, reason: SealingReason) -> SealedView {
        SealedView {
            key: self.key,
            rows: in_order(self.rows),
            uncompressed: self.uncompressed,
            resident: self.resident,
            reason,
        }
    }
}

impl OpenSegment {
    pub(crate) fn new(key: SegmentKey, row: SegmentRow, opened_at: u128, access_sequence: u64) -> (r: Self)
        requires
            utc_day(row_time(row) as int) == key.event_day.spec_day(),
        ensures
            r@ == OpenView::opened(key, row, opened_at, access_sequence),
            r@.well_formed(),
    {
        let estimated_uncompressed_bytes: u64 = row.estimated_uncompressed_bytes;
        let estimated_resident_bytes: u64 = row.estimated_resident_bytes;
        let ghost first = seq![row];
        let mut rows: Vec<SegmentRow> = Vec::new();
        rows.push(row);
        proof {
            assert(rows@ =~= first);
            assert(first.drop_last() =~= Seq::empty());
            assert(rows_uncompressed(first.drop_last()) == 0);
            assert(rows_resident(first.drop_last()) == 0);
        }
        OpenSegment {
            key,
            rows,
            estimated_uncompressed_bytes,
            estimated_resident_bytes,
            opened_at,
            last_touched_sequence: access_sequence,
        }
    }

    pub(crate) fn push(&mut self, row: SegmentRow, access_sequence: u64)
        requires
            old(self)@.well_formed(),
            old(self)@.uncompressed + row.estimated_uncompressed_bytes <= u64::MAX,
            old(self)@.resident + row.estimated_resident_bytes <= u64::MAX,
            utc_day(row_time(row) as int) == old(self)@.key.event_day.spec_day(),
        ensures
            final(self)@ == old(self)@.with_row(row, access_sequence),
            final(self)@.well_formed(),
    {
        self.estimated_uncompressed_bytes =
        self.estimated_uncompressed_bytes + row.estimated_uncompressed_bytes;
        self.estimated_resident_bytes =
        self.estimated_resident_bytes + row.estimated_resident_bytes;
        self.last_touched_sequence = access_sequence;
        let ghost before = self.rows@;
        self.rows.push(row);
        proof {
            assert(self.rows@.drop_last() =~= before);
        }
    }

    /// Sorts the rows and takes their bounds.
    pub(crate) fn seal(self, sealing_reason: SealingReason) -> (r: SealedSegment)
        requires
            self@.well_formed(),
        ensures
            r@ == self@.sealed(sealing_reason),
            r.well_formed(),
    {
        let ghost arrived = self.rows@;
        let mut rows: Vec<SegmentRow> = self.rows;
        sort_rows(&mut rows);
        proof {
            broadcast use vstd::seq_lib::group_to_multiset_ensures;

            lemma_in_order(arrived);
            lemma_order_is_unique(rows@, in_order(arrived));
            ordering_keeps_estimates(arrived);
            assert(rows@.len() == rows@.to_multiset().len());
            assert(arrived.len() == arrived.to_multiset().len());
            assert forall|i: int| 0 <= i < rows@.len() implies utc_day(
                row_time(#[trigger] rows@[i]) as int,
            ) == self.key.event_day.spec_day() by {
                assert(rows@.contains(rows@[i]));
                assert(rows@.to_multiset().count(rows@[i]) > 0);
                assert(arrived.to_multiset().count(rows@[i]) > 0);
                assert(arrived.contains(rows@[i]));
                let k = choose|k: int| 0 <= k < arrived.len() && arrived[k] == rows@[i];
                assert(arrived[k] == rows@[i]);
            }
        }
        let count: usize = rows.len();
        let first: EventTime = rows[0].row.event_time;
        let last: EventTime = rows[count - 1].row.event_time;
        let mut minimum: IngestionTime = rows[0].row.ingestion_time;
        let mut maximum: IngestionTime = minimum;
        let mut index: usize = 1;
        let ghost mut least: int = 0;
        let ghost mut greatest: int = 0;
        while index < count
            invariant
                1 <= index <= count,
                count == rows@.len(),
                0 <= least < index,
                0 <= greatest < index,
                rows@[least].row.ingestion_time == minimum,
                rows@[greatest].row.ingestion_time == maximum,
                forall|i: int|
                    0 <= i < index ==> minimum.spec_milliseconds() <= (
                    #[trigger] rows@[i]).row.ingestion_time.spec_milliseconds()
                        <= maximum.spec_milliseconds(),
            decreases count - index,
        {
            let time: IngestionTime = rows[index].row.ingestion_time;
            if time.unix_milliseconds() < minimum.unix_milliseconds() {
                minimum = time;
                proof {
                    least = index as int;
                }
            }
            if time.unix_milliseconds() > maximum.unix_milliseconds() {
                maximum = time;
                proof {
                    greatest = index as int;
                }
            }
            index = index + 1;
        }
        let bounds: SegmentTimeBounds = SegmentTimeBounds {
            minimum_event_time: first,
            maximum_event_time: last,
            minimum_ingestion_time: minimum,
            maximum_ingestion_time: maximum,
        };
        proof {
            assert(rows@[0].row.event_time == first);
            assert(rows@[count - 1].row.event_time == last);
            assert(rows@[least].row.ingestion_time == minimum);
            assert(rows@[greatest].row.ingestion_time == maximum);
            assert forall|i: int| 0 <= i < rows@.len() implies first.spec_milliseconds()
                <= row_time(#[trigger] rows@[i]) <= last.spec_milliseconds() by {
                assert(row_time(rows@[0]) == first.spec_milliseconds());
                assert(row_time(rows@[count - 1]) == last.spec_milliseconds());
            }
        }
        SealedSegment {
            key: self.key,
            rows,
            estimated_uncompressed_bytes: self.estimated_uncompressed_bytes,
            estimated_resident_bytes: self.estimated_resident_bytes,
            bounds,
            sealing_reason,
        }
    }
}

/// A segment keeps its rows by event time, those of the same time by event identity, and those of the
/// same identity as they came.
pub proof fn rows_are_kept_by_time_and_identity(rows: Seq<SegmentRow>, i: int, j: int)
    requires
        0 <= i < j < in_order(rows).len(),
    ensures
        ({
            let (first, second) = (in_order(rows)[i], in_order(rows)[j]);
            let earlier = first.row.event_time.spec_milliseconds();
            let later = second.row.event_time.spec_milliseconds();
            ||| earlier < later
            ||| earlier == later && be_value(first.row.event_id.bytes@) <= be_value(
                second.row.event_id.bytes@,
            )
        }),
        in_order(rows).len() == rows.len(),
        forall|time: i64, identity: int| #[trigger]
            rows_with_key(in_order(rows), time, identity) == rows_with_key(rows, time, identity),
{
    lemma_in_order(rows);
}

/// The order of keys is total: by source, among those of one source by schema, and among those of one
/// schema by day.
pub proof fn the_order_of_keys_is_total(left: SegmentKey, middle: SegmentKey, right: SegmentKey)
    ensures
        !(left.before(right) && right.before(left)),
        left == right || left.before(right) || right.before(left),
        left.before(middle) && middle.before(right) ==> left.before(right),
        left.source_id.spec_value() < right.source_id.spec_value() ==> left.before(right),
        left.source_id == right.source_id && left.schema_id.spec_value() < right.schema_id.spec_value()
            ==> left.before(right),
        left.source_id == right.source_id && left.schema_id == right.schema_id
            && left.event_day.spec_day() < right.event_day.spec_day() ==> left.before(right),
{
}

} // verus!
