//! Which output covers which occurrences of the spool, what recovery does about an output, and how
//! far the spool's checkpoint may advance.

use std::collections::HashSet;

use vstd::prelude::*;

use crate::identity::{
    check_uuid_v7, is_uuid_v7, BatchId, InputId, SchemaId, SegmentId, SourceId, StoredObjectId,
};
use crate::ingestion::model::{SpoolBatchRange, SpoolCheckpoint};
use crate::ingestion::record::{NormalizedBatch, NormalizedRecord, OutcomeView};

verus! {

pub const MAXIMUM_COVERED_BATCHES: usize = 50_000;

pub const MAXIMUM_COVERED_POSITIONS: usize = 100_000;

/// Why a value of output recovery is refused.
#[derive(Clone, Copy, Debug, PartialEq, Eq, Structural)]
pub enum OutputRecoveryModelError {
    RecoveryIdentityMustBeUuidV7,
    CoveredPositionsMustNotBeEmpty,
    PositionsMustIncrease,
    CoveredBatchLimitExceeded,
    CoveredPositionLimitExceeded,
    CoveredBatchesOverlap,
    SegmentRowCoverageMismatch,
    DeadLetterBatchMismatch,
    OutputKindCannotChange,
    ReplacementIdentitiesMustChange,
    RecoveryRevisionExhausted,
    OutputIsNotPublished,
    RetainedSpoolBytesMissing,
    DuplicateBatchRequirements,
    BatchRequirementsAreNotContiguous,
    PublishedCoverageIsUnknown,
    PublishedCoverageRangeMismatch,
    PublishedCoverageOverlaps,
}

/// The identity under which an output is recovered.
#[derive(Clone, Copy, Debug, PartialEq, Eq, PartialOrd, Ord, Hash, Structural)]
pub struct OutputRecoveryId {
    pub(crate) value: u128,
}

impl OutputRecoveryId {
    #[verifier::type_invariant]
    pub(crate) open(crate) spec fn valid(self) -> bool {
        is_uuid_v7(self.value)
    }

    pub open(crate) spec fn spec_value(self) -> u128 {
        self.value
    }

    pub fn new(value: u128) -> (r: Result<Self, OutputRecoveryModelError>)
        ensures
            match r {
                Ok(id) => is_uuid_v7(value) && id.spec_value() == value,
                Err(e) => !is_uuid_v7(value) && e
                    == OutputRecoveryModelError::RecoveryIdentityMustBeUuidV7,
            },
    {
        if check_uuid_v7(value) {
            Ok(OutputRecoveryId { value })
        } else {
            Err(OutputRecoveryModelError::RecoveryIdentityMustBeUuidV7)
        }
    }

    pub fn as_u128(self) -> (r: u128)
        ensures
            r == self.spec_value(),
    {
        self.value
    }
}

/// Whether each position is greater than the one before it.
pub open spec fn strictly_increasing(positions: Seq<u64>) -> bool {
    forall|i: int, j: int| 0 <= i < j < positions.len() ==> positions[i] < positions[j]
}

/// What keeps positions from being the positions that an output covers in a batch.
pub open spec fn positions_fault(positions: Seq<u64>) -> Option<OutputRecoveryModelError> {
    if positions.len() == 0 {
        Some(OutputRecoveryModelError::CoveredPositionsMustNotBeEmpty)
    } else if positions.len() > MAXIMUM_COVERED_POSITIONS {
        Some(OutputRecoveryModelError::CoveredPositionLimitExceeded)
    } else if !strictly_increasing(positions) {
        Some(OutputRecoveryModelError::PositionsMustIncrease)
    } else {
        None
    }
}

/// Tests whether each position is greater than the one before it.
fn increases(positions: &Vec<u64>) -> (r: bool)
    ensures
        r == strictly_increasing(positions@),
{
    let mut index: usize = 1;
    while index < positions.len()
        invariant
            1 <= index,
            positions@.len() > 0 ==> index <= positions@.len(),
            forall|i: int, j: int|
                0 <= i < j < index && j < positions@.len() ==> positions@[i] < positions@[j],
        decreases positions@.len() - index,
    {
        if positions[index - 1] >= positions[index] {
            assert(!(positions@[index - 1] < positions@[index as int]));
            return false;
        }
        index = index + 1;
    }
    true
}

fn validate_positions(positions: &Vec<u64>) -> (r: Result<(), OutputRecoveryModelError>)
    ensures
        match r {
            Ok(_) => positions_fault(positions@) is None,
            Err(e) => positions_fault(positions@) == Some(e),
        },
{
    if positions.len() == 0 {
        return Err(OutputRecoveryModelError::CoveredPositionsMustNotBeEmpty);
    }
    if positions.len() > MAXIMUM_COVERED_POSITIONS {
        return Err(OutputRecoveryModelError::CoveredPositionLimitExceeded);
    }
    if !increases(positions) {
        return Err(OutputRecoveryModelError::PositionsMustIncrease);
    }
    Ok(())
}

/// The occurrences of one batch that an output holds, as a value.
pub struct CoverageView {
    pub batch_id: BatchId,
    pub spool_range: SpoolBatchRange,
    pub positions: Seq<u64>,
}

/// The occurrences of one batch that an output holds.
#[derive(Debug)]
pub struct BatchPositionCoverage {
    pub(crate) batch_id: BatchId,
    pub(crate) spool_range: SpoolBatchRange,
    pub(crate) positions: Vec<u64>,
}

impl View for BatchPositionCoverage {
    type V = CoverageView;

    open(crate) spec fn view(&self) -> CoverageView {
        CoverageView {
            batch_id: self.batch_id,
            spool_range: self.spool_range,
            positions: self.positions@,
        }
    }
}

impl BatchPositionCoverage {
    #[verifier::type_invariant]
    pub(crate) open(crate) spec fn valid(self) -> bool {
        positions_fault(self.positions@) is None
    }

    pub fn new(batch_id: BatchId, spool_range: SpoolBatchRange, positions: Vec<u64>) -> (r: Result<
        Self,
        OutputRecoveryModelError,
    >)
        ensures
            match r {
                Ok(coverage) => positions_fault(positions@) is None && coverage@ == (CoverageView {
                    batch_id,
                    spool_range,
                    positions: positions@,
                }),
                Err(e) => positions_fault(positions@) == Some(e),
            },
    {
        match validate_positions(&positions) {
            Ok(_) => Ok(BatchPositionCoverage { batch_id, spool_range, positions }),
            Err(e) => Err(e),
        }
    }

    pub fn batch_id(&self) -> (r: BatchId)
        ensures
            r == self@.batch_id,
    {
        self.batch_id
    }

    pub fn spool_range(&self) -> (r: SpoolBatchRange)
        ensures
            r == self@.spool_range,
    {
        self.spool_range
    }

    pub fn positions(&self) -> (r: &[u64])
        ensures
            r@ == self@.positions,
            positions_fault(r@) is None,
    {
        proof {
            use_type_invariant(self);
        }
        self.positions.as_slice()
    }

    /// A copy with the same occurrences.
    pub fn duplicate(&self) -> (r: Self)
        ensures
            r@ == self@,
    {
        proof {
            use_type_invariant(self);
        }
        let positions: Vec<u64> = self.positions.clone();
        assert(positions@ =~= self.positions@);
        BatchPositionCoverage {
            batch_id: self.batch_id,
            spool_range: self.spool_range,
            positions,
        }
    }

    /// Whether two items cover the same occurrences.
    pub fn same_as(&self, other: &Self) -> (r: bool)
        ensures
            r == (self@ == other@),
    {
        if self.batch_id != other.batch_id || self.spool_range != other.spool_range
            || self.positions.len() != other.positions.len() {
            return false;
        }
        let mut index: usize = 0;
        while index < self.positions.len()
            invariant
                index <= self.positions@.len() == other.positions@.len(),
                forall|i: int| 0 <= i < index ==> self.positions@[i] == other.positions@[i],
            decreases self.positions@.len() - index,
        {
            if self.positions[index] != other.positions[index] {
                return false;
            }
            index = index + 1;
        }
        assert(self.positions@ =~= other.positions@);
        true
    }
}

/// The values of a list of items.
pub open spec fn coverage_views(coverage: Seq<BatchPositionCoverage>) -> Seq<CoverageView> {
    Seq::new(coverage.len(), |i: int| coverage[i]@)
}

/// A copy of a list of items.
pub fn duplicate_coverage(coverage: &Vec<BatchPositionCoverage>) -> (r: Vec<BatchPositionCoverage>)
    ensures
        coverage_views(r@) == coverage_views(coverage@),
{
    let mut copy: Vec<BatchPositionCoverage> = Vec::new();
    let mut index: usize = 0;
    while index < coverage.len()
        invariant
            index <= coverage@.len(),
            copy@.len() == index,
            forall|i: int| 0 <= i < index ==> (#[trigger] copy@[i])@ == coverage@[i]@,
        decreases coverage@.len() - index,
    {
        copy.push(coverage[index].duplicate());
        index = index + 1;
    }
    assert(coverage_views(copy@) =~= coverage_views(coverage@));
    copy
}

/// Whether two lists of items cover the same occurrences in the same order.
pub fn same_coverage(left: &Vec<BatchPositionCoverage>, right: &Vec<BatchPositionCoverage>) -> (r:
    bool)
    ensures
        r == (coverage_views(left@) == coverage_views(right@)),
{
    if left.len() != right.len() {
        assert(coverage_views(left@).len() != coverage_views(right@).len());
        return false;
    }
    let mut index: usize = 0;
    while index < left.len()
        invariant
            index <= left@.len() == right@.len(),
            forall|i: int| 0 <= i < index ==> (#[trigger] left@[i])@ == right@[i]@,
        decreases left@.len() - index,
    {
        if !left[index].same_as(&right[index]) {
            assert(coverage_views(left@)[index as int] != coverage_views(right@)[index as int]);
            return false;
        }
        index = index + 1;
    }
    assert(coverage_views(left@) =~= coverage_views(right@));
    true
}

/// How far the checkpoint is to advance.
#[derive(Clone, Copy, Debug, PartialEq, Eq, Structural)]
pub struct CheckpointPlan {
    pub current: SpoolCheckpoint,
    pub target: SpoolCheckpoint,
}

impl CheckpointPlan {
    pub fn current(self) -> (r: SpoolCheckpoint)
        ensures
            r == self.current,
    {
        self.current
    }

    pub fn target(self) -> (r: SpoolCheckpoint)
        ensures
            r == self.target,
    {
        self.target
    }
}

/// How many occurrences a coverage holds.
pub open spec fn covered_positions(coverage: Seq<CoverageView>) -> int
    decreases coverage.len(),
{
    if coverage.len() == 0 {
        0
    } else {
        covered_positions(coverage.drop_last()) + coverage.last().positions.len()
    }
}

/// Whether one of the items covers this batch.
pub open spec fn covers_batch(coverage: Seq<CoverageView>, batch_id: BatchId) -> bool {
    exists|i: int| 0 <= i < coverage.len() && (#[trigger] coverage[i]).batch_id == batch_id
}

/// The first item that makes a coverage invalid, and why.
pub open spec fn coverage_items_fault(coverage: Seq<CoverageView>) -> Option<
    OutputRecoveryModelError,
>
    decreases coverage.len(),
{
    if coverage.len() == 0 {
        None
    } else {
        match coverage_items_fault(coverage.drop_last()) {
            Some(fault) => Some(fault),
            None => match positions_fault(coverage.last().positions) {
                Some(fault) => Some(fault),
                None => if covered_positions(coverage) > MAXIMUM_COVERED_POSITIONS {
                    Some(OutputRecoveryModelError::CoveredPositionLimitExceeded)
                } else if covers_batch(coverage.drop_last(), coverage.last().batch_id) {
                    Some(OutputRecoveryModelError::CoveredBatchesOverlap)
                } else {
                    None
                },
            },
        }
    }
}

/// Whether no batch begins before the preceding one ends.
pub open spec fn ranges_in_order(coverage: Seq<CoverageView>) -> bool {
    forall|i: int|
        #![trigger coverage[i]]
        1 <= i < coverage.len() ==> coverage[i - 1].spool_range.spec_end().position
            <= coverage[i].spool_range.spec_start().position
}

/// What keeps a list of items from being the coverage of an output.
pub open spec fn coverage_fault(coverage: Seq<CoverageView>) -> Option<
    OutputRecoveryModelError,
> {
    if coverage.len() == 0 {
        Some(OutputRecoveryModelError::CoveredPositionsMustNotBeEmpty)
    } else if coverage.len() > MAXIMUM_COVERED_BATCHES {
        Some(OutputRecoveryModelError::CoveredBatchLimitExceeded)
    } else {
        match coverage_items_fault(coverage) {
            Some(fault) => Some(fault),
            None => if !ranges_in_order(coverage) {
                Some(OutputRecoveryModelError::CoveredBatchesOverlap)
            } else {
                None
            },
        }
    }
}

/// A fault of the first items is the fault of the whole coverage.
proof fn lemma_items_fault_persists(coverage: Seq<CoverageView>, count: int)
    requires
        0 <= count <= coverage.len(),
        coverage_items_fault(coverage.subrange(0, count)) is Some,
    ensures
        coverage_items_fault(coverage) == coverage_items_fault(coverage.subrange(0, count)),
    decreases coverage.len(),
{
    if count < coverage.len() {
        assert(coverage.drop_last().subrange(0, count) =~= coverage.subrange(0, count));
        lemma_items_fault_persists(coverage.drop_last(), count);
    } else {
        assert(coverage.subrange(0, count) =~= coverage);
    }
}

/// Validates a coverage and counts its occurrences.
pub fn validate_coverage(coverage: &Vec<BatchPositionCoverage>) -> (r: Result<
    u64,
    OutputRecoveryModelError,
>)
    ensures
        match r {
            Ok(count) => coverage_fault(coverage_views(coverage@)) is None && count
                == covered_positions(coverage_views(coverage@)),
            Err(e) => coverage_fault(coverage_views(coverage@)) == Some(e),
        },
{
    broadcast use vstd::std_specs::hash::group_hash_axioms;

    let ghost views = coverage_views(coverage@);
    if coverage.len() == 0 {
        return Err(OutputRecoveryModelError::CoveredPositionsMustNotBeEmpty);
    }
    if coverage.len() > MAXIMUM_COVERED_BATCHES {
        return Err(OutputRecoveryModelError::CoveredBatchLimitExceeded);
    }
    let mut count: usize = 0;
    let mut seen: HashSet<u128> = HashSet::new();
    let mut index: usize = 0;
    assert(views.subrange(0, 0) =~= Seq::empty());
    while index < coverage.len()
        invariant
            views == coverage_views(coverage@),
            index <= coverage@.len(),
            0 < coverage@.len() <= MAXIMUM_COVERED_BATCHES,
            coverage_items_fault(views.subrange(0, index as int)) is None,
            count == covered_positions(views.subrange(0, index as int)),
            count <= MAXIMUM_COVERED_POSITIONS,
            forall|id: BatchId|
                seen@.contains(#[trigger] id.value) <==> covers_batch(
                    views.subrange(0, index as int),
                    id,
                ),
        decreases coverage@.len() - index,
    {
        let item: &BatchPositionCoverage = &coverage[index];
        let ghost before = views.subrange(0, index as int);
        let ghost through = views.subrange(0, index + 1);
        assert(through.drop_last() =~= before);
        assert(through.last() == item@);
        match validate_positions(&item.positions) {
            Ok(_) => {},
            Err(e) => {
                proof {
                    lemma_items_fault_persists(views, index + 1);
                }
                return Err(e);
            },
        }
        count = count + item.positions.len();
        if count > MAXIMUM_COVERED_POSITIONS {
            proof {
                lemma_items_fault_persists(views, index + 1);
            }
            return Err(OutputRecoveryModelError::CoveredPositionLimitExceeded);
        }
        let fresh: bool = seen.insert(item.batch_id.value);
        if !fresh {
            proof {
                assert(fresh == !covers_batch(before, item.batch_id));
                lemma_items_fault_persists(views, index + 1);
            }
            return Err(OutputRecoveryModelError::CoveredBatchesOverlap);
        }
        index = index + 1;
        proof {
            assert forall|id: BatchId|
                seen@.contains(#[trigger] id.value) <==> covers_batch(
                    views.subrange(0, index as int),
                    id,
                ) by {
                if covers_batch(before, id) {
                    let k = choose|k: int|
                        0 <= k < before.len() && (#[trigger] before[k]).batch_id == id;
                    assert(through[k].batch_id == id);
                }
                if id.value == item.batch_id.value {
                    assert(through[index - 1].batch_id == id);
                }
                if covers_batch(through, id) {
                    let k = choose|k: int|
                        0 <= k < through.len() && (#[trigger] through[k]).batch_id == id;
                    if k < before.len() {
                        assert(before[k].batch_id == id);
                    }
                }
            }
        }
    }
    assert(views.subrange(0, index as int) =~= views);
    let mut next: usize = 1;
    while next < coverage.len()
        invariant
            views == coverage_views(coverage@),
            1 <= next <= coverage@.len(),
            coverage@.len() <= MAXIMUM_COVERED_BATCHES,
            coverage_items_fault(views) is None,
            forall|i: int|
                #![trigger views[i]]
                1 <= i < next ==> views[i - 1].spool_range.spec_end().position
                    <= views[i].spool_range.spec_start().position,
        decreases coverage@.len() - next,
    {
        if coverage[next - 1].spool_range.end().position()
            > coverage[next].spool_range.start().position() {
            assert(!(views[next - 1].spool_range.spec_end().position
                <= views[next as int].spool_range.spec_start().position));
            return Err(OutputRecoveryModelError::CoveredBatchesOverlap);
        }
        next = next + 1;
    }
    Ok(count as u64)
}

/// The order of two ranges: by where they start, then by where they end.
pub open spec fn range_precedes(left: SpoolBatchRange, right: SpoolBatchRange) -> bool {
    left.spec_start().position < right.spec_start().position || (left.spec_start().position
        == right.spec_start().position && left.spec_end().position <= right.spec_end().position)
}

/// Whether `after` holds the items of `before`, in the order of their ranges.
pub open spec fn ordered_by_range(before: Seq<CoverageView>, after: Seq<CoverageView>) -> bool {
    &&& after.to_multiset() == before.to_multiset()
    &&& forall|i: int, j: int|
        #![trigger after[i], after[j]]
        0 <= i < j < after.len() ==> range_precedes(after[i].spool_range, after[j].spool_range)
}

/// Calls `slice::sort_unstable_by_key` with the two ends of an item's range as its key. Claimed of
/// it: it permutes the items so that no key exceeds a later one.
#[verifier::external_body]
fn sort_by_range(coverage: &mut Vec<BatchPositionCoverage>)
    ensures
        ordered_by_range(coverage_views(old(coverage)@), coverage_views(final(coverage)@)),
{
    coverage.sort_unstable_by_key(
        |item| (item.spool_range.start.position, item.spool_range.end.position),
    );
}

/// Where an object is stored.
#[derive(Debug)]
pub struct ManagedObjectKey {
    pub text: String,
    pub object_id: StoredObjectId,
}

/// What a stored object is expected to be.
#[derive(Debug)]
pub struct ObjectDescriptor {
    pub key: ManagedObjectKey,
    pub expected_byte_size: u64,
    pub digest: [u8; 32],
    pub media_type: String,
    pub format_version: u64,
}

/// The value of an object descriptor.
pub struct ObjectView {
    pub key: Seq<char>,
    pub object_id: StoredObjectId,
    pub expected_byte_size: u64,
    pub digest: Seq<u8>,
    pub media_type: Seq<char>,
    pub format_version: u64,
}

impl View for ObjectDescriptor {
    type V = ObjectView;

    open spec fn view(&self) -> ObjectView {
        ObjectView {
            key: self.key.text@,
            object_id: self.key.object_id,
            expected_byte_size: self.expected_byte_size,
            digest: self.digest@,
            media_type: self.media_type@,
            format_version: self.format_version,
        }
    }
}

impl ObjectDescriptor {
    pub fn same_as(&self, other: &Self) -> (r: bool)
        ensures
            r == (self@ == other@),
    {
        let same_digest: bool = crate::codec::matches_at(&self.digest, 0, &other.digest);
        assert(self.digest@.subrange(0, 32) =~= self.digest@);
        self.key.text == other.key.text && self.key.object_id == other.key.object_id
            && self.expected_byte_size == other.expected_byte_size && same_digest
            && self.media_type == other.media_type && self.format_version == other.format_version
    }
}

/// The instants that the rows of a segment span, in microseconds, and the day that they fall on.
#[derive(Clone, Copy, Debug, PartialEq, Eq, Structural)]
pub struct IngestionSegmentTimes {
    pub event_day: i32,
    pub minimum_event_time_micros: i64,
    pub maximum_event_time_micros: i64,
    pub minimum_ingestion_time_micros: i64,
    pub maximum_ingestion_time_micros: i64,
}

/// A segment that is to be made known.
#[derive(Debug)]
pub struct IngestionSegmentRegistration {
    pub segment_id: SegmentId,
    pub source_id: SourceId,
    pub schema_id: SchemaId,
    pub times: IngestionSegmentTimes,
    pub row_count: u64,
    pub uncompressed_bytes: u64,
    pub object: ObjectDescriptor,
}

/// A dead-letter object that is to be made known.
#[derive(Debug)]
pub struct DeadLetterRegistration {
    pub input_id: InputId,
    pub batch_id: BatchId,
    pub object: ObjectDescriptor,
}

/// The output that a recovery record is about.
#[derive(Debug)]
pub enum RecoveryOutput {
    Segment(IngestionSegmentRegistration),
    DeadLetter(DeadLetterRegistration),
}

/// The value of an output.
pub enum OutputView {
    Segment {
        segment_id: SegmentId,
        source_id: SourceId,
        schema_id: SchemaId,
        times: IngestionSegmentTimes,
        row_count: u64,
        uncompressed_bytes: u64,
        object: ObjectView,
    },
    DeadLetter { input_id: InputId, batch_id: BatchId, object: ObjectView },
}

impl View for RecoveryOutput {
    type V = OutputView;

    open spec fn view(&self) -> OutputView {
        match self {
            RecoveryOutput::Segment(registration) => OutputView::Segment {
                segment_id: registration.segment_id,
                source_id: registration.source_id,
                schema_id: registration.schema_id,
                times: registration.times,
                row_count: registration.row_count,
                uncompressed_bytes: registration.uncompressed_bytes,
                object: registration.object@,
            },
            RecoveryOutput::DeadLetter(registration) => OutputView::DeadLetter {
                input_id: registration.input_id,
                batch_id: registration.batch_id,
                object: registration.object@,
            },
        }
    }
}

impl OutputView {
    pub open spec fn object(self) -> ObjectView {
        match self {
            OutputView::Segment { object, .. } => object,
            OutputView::DeadLetter { object, .. } => object,
        }
    }
}

impl RecoveryOutput {
    pub fn object(&self) -> (r: &ObjectDescriptor)
        ensures
            r@ == self@.object(),
    {
        match self {
            RecoveryOutput::Segment(registration) => &registration.object,
            RecoveryOutput::DeadLetter(registration) => &registration.object,
        }
    }

    pub fn same_as(&self, other: &Self) -> (r: bool)
        ensures
            r == (self@ == other@),
    {
        match (self, other) {
            (
                RecoveryOutput::Segment(left),
                RecoveryOutput::Segment(right),
            ) => left.segment_id == right.segment_id && left.source_id == right.source_id
                && left.schema_id == right.schema_id && left.times == right.times && left.row_count
                == right.row_count && left.uncompressed_bytes == right.uncompressed_bytes
                && left.object.same_as(&right.object),
            (
                RecoveryOutput::DeadLetter(left),
                RecoveryOutput::DeadLetter(right),
            ) => left.input_id == right.input_id && left.batch_id == right.batch_id
                && left.object.same_as(&right.object),
            _ => false,
        }
    }
}

/// What is known of an output whose objects have not been made known.
#[derive(Clone, Copy, Debug, PartialEq, Eq, Structural)]
pub enum UnregisteredOutputBytes {
    Available,
    Missing,
}

/// What is known of the bytes of an output that was planned.
#[derive(Clone, Copy, Debug, PartialEq, Eq, Structural)]
pub enum PlannedOutputBytes {
    Available,
    MissingUnverified,
    MissingVerified,
    MissingAbsent,
}

/// The state in which recovery finds an output.
#[derive(Clone, Copy, Debug, PartialEq, Eq, Structural)]
pub enum OutputRecoveryObservation {
    Unregistered(UnregisteredOutputBytes),
    Planned(PlannedOutputBytes),
    Uploaded,
    Published,
    Abandoned,
}

/// What recovery does next about an output.
#[derive(Clone, Copy, Debug, PartialEq, Eq, Structural)]
pub enum OutputRecoveryAction {
    Register,
    Rebuild,
    Upload,
    VerifyExactObject,
    RecordVerifiedUpload,
    Publish,
    Complete,
    AbandonAndRebuild,
}

/// Whether the spool still holds the bytes that an output covers.
#[derive(Clone, Copy, Debug, PartialEq, Eq, Structural)]
pub enum RetainedSpoolBytes {
    Available,
    Missing,
}

impl OutputRecoveryObservation {
    /// The action that an observation calls for.
    pub open spec fn action(self) -> OutputRecoveryAction {
        match self {
            OutputRecoveryObservation::Unregistered(
                UnregisteredOutputBytes::Available,
            ) => OutputRecoveryAction::Register,
            OutputRecoveryObservation::Unregistered(
                UnregisteredOutputBytes::Missing,
            ) => OutputRecoveryAction::Rebuild,
            OutputRecoveryObservation::Planned(
                PlannedOutputBytes::Available,
            ) => OutputRecoveryAction::Upload,
            OutputRecoveryObservation::Planned(
                PlannedOutputBytes::MissingUnverified,
            ) => OutputRecoveryAction::VerifyExactObject,
            OutputRecoveryObservation::Planned(
                PlannedOutputBytes::MissingVerified,
            ) => OutputRecoveryAction::RecordVerifiedUpload,
            OutputRecoveryObservation::Planned(
                PlannedOutputBytes::MissingAbsent,
            ) => OutputRecoveryAction::AbandonAndRebuild,
            OutputRecoveryObservation::Uploaded => OutputRecoveryAction::Publish,
            OutputRecoveryObservation::Published => OutputRecoveryAction::Complete,
            OutputRecoveryObservation::Abandoned => OutputRecoveryAction::Rebuild,
        }
    }
}

impl OutputRecoveryAction {
    /// Whether an action reads the spool again.
    pub open spec fn rebuilds(self) -> bool {
        self is Rebuild || self is AbandonAndRebuild
    }
}

/// An output together with the occurrences that it covers.
#[derive(Debug)]
pub struct OutputRecoveryRecord {
    pub id: OutputRecoveryId,
    pub revision: u64,
    pub output: RecoveryOutput,
    pub coverage: Vec<BatchPositionCoverage>,
}

/// The value of a recovery record.
pub struct RecordView {
    pub id: OutputRecoveryId,
    pub revision: u64,
    pub output: OutputView,
    pub coverage: Seq<CoverageView>,
}

impl View for OutputRecoveryRecord {
    type V = RecordView;

    open spec fn view(&self) -> RecordView {
        RecordView {
            id: self.id,
            revision: self.revision,
            output: self.output@,
            coverage: coverage_views(self.coverage@),
        }
    }
}

impl RecordView {
    /// Whether a record covers exactly what its output holds.
    pub open spec fn consistent(self) -> bool {
        &&& self.revision > 0
        &&& coverage_fault(self.coverage) is None
        &&& match self.output {
            OutputView::Segment { row_count, .. } => covered_positions(self.coverage) == row_count,
            OutputView::DeadLetter { batch_id, .. } => self.coverage.len() == 1
                && self.coverage[0].batch_id == batch_id,
        }
    }
}

/// What keeps a coverage in range order from being the coverage of a segment.
pub open spec fn segment_fault(coverage: Seq<CoverageView>, row_count: u64) -> Option<
    OutputRecoveryModelError,
> {
    match coverage_fault(coverage) {
        Some(fault) => Some(fault),
        None => if covered_positions(coverage) != row_count {
            Some(OutputRecoveryModelError::SegmentRowCoverageMismatch)
        } else {
            None
        },
    }
}

/// A single valid item is a valid coverage.
proof fn lemma_single_coverage(coverage: Seq<CoverageView>)
    requires
        coverage.len() == 1,
        positions_fault(coverage[0].positions) is None,
    ensures
        coverage_fault(coverage) is None,
{
    assert(coverage.drop_last() =~= Seq::empty());
    assert(coverage_items_fault(coverage.drop_last()) is None);
    assert(covered_positions(coverage.drop_last()) == 0);
    assert(!covers_batch(coverage.drop_last(), coverage.last().batch_id));
}

impl OutputRecoveryRecord {
    /// The first record of a segment. Its coverage is put in the order of the spool.
    pub fn segment(
        id: OutputRecoveryId,
        registration: IngestionSegmentRegistration,
        coverage: Vec<BatchPositionCoverage>,
    ) -> (r: Result<Self, OutputRecoveryModelError>)
        ensures
            exists|ordered: Seq<CoverageView>| #[trigger]
                ordered_by_range(coverage_views(coverage@), ordered) && match segment_fault(
                    ordered,
                    registration.row_count,
                ) {
                    Some(fault) => r == Err::<Self, OutputRecoveryModelError>(fault),
                    None => r matches Ok(record) && record@ == (RecordView {
                        id,
                        revision: 1,
                        output: RecoveryOutput::Segment(registration)@,
                        coverage: ordered,
                    }) && record@.consistent(),
                },
    {
        let mut ordered: Vec<BatchPositionCoverage> = coverage;
        sort_by_range(&mut ordered);
        assert(ordered_by_range(coverage_views(coverage@), coverage_views(ordered@)));
        let covered_rows: u64 = match validate_coverage(&ordered) {
            Ok(count) => count,
            Err(e) => {
                return Err(e);
            },
        };
        if covered_rows != registration.row_count {
            return Err(OutputRecoveryModelError::SegmentRowCoverageMismatch);
        }
        Ok(
            OutputRecoveryRecord {
                id,
                revision: 1,
                output: RecoveryOutput::Segment(registration),
                coverage: ordered,
            },
        )
    }

    /// The first record of a dead-letter object.
    pub fn dead_letter(
        id: OutputRecoveryId,
        registration: DeadLetterRegistration,
        coverage: BatchPositionCoverage,
    ) -> (r: Result<Self, OutputRecoveryModelError>)
        ensures
            match r {
                Ok(record) => registration.batch_id == coverage@.batch_id && record@ == (
                RecordView {
                    id,
                    revision: 1,
                    output: RecoveryOutput::DeadLetter(registration)@,
                    coverage: seq![coverage@],
                }) && record@.consistent(),
                Err(e) => registration.batch_id != coverage@.batch_id && e
                    == OutputRecoveryModelError::DeadLetterBatchMismatch,
            },
    {
        if registration.batch_id != coverage.batch_id {
            return Err(OutputRecoveryModelError::DeadLetterBatchMismatch);
        }
        proof {
            use_type_invariant(&coverage);
        }
        let mut items: Vec<BatchPositionCoverage> = Vec::new();
        let ghost item = coverage@;
        items.push(coverage);
        proof {
            assert(coverage_views(items@) =~= seq![item]);
            lemma_single_coverage(coverage_views(items@));
        }
        Ok(
            OutputRecoveryRecord {
                id,
                revision: 1,
                output: RecoveryOutput::DeadLetter(registration),
                coverage: items,
            },
        )
    }

    pub fn id(&self) -> (r: OutputRecoveryId)
        ensures
            r == self.id,
    {
        self.id
    }

    pub fn revision(&self) -> (r: u64)
        ensures
            r == self.revision,
    {
        self.revision
    }

    pub fn output(&self) -> (r: &RecoveryOutput)
        ensures
            *r == self.output,
    {
        &self.output
    }

    pub fn coverage(&self) -> (r: &[BatchPositionCoverage])
        ensures
            r@ == self.coverage@,
    {
        self.coverage.as_slice()
    }

    /// The record of a segment that was rebuilt under fresh identities.
    pub fn replacement_segment(&self, registration: IngestionSegmentRegistration) -> (r: Result<
        Self,
        OutputRecoveryModelError,
    >)
        requires
            self@.consistent(),
        ensures
            match self@.output {
                OutputView::DeadLetter { .. } => r == Err::<Self, OutputRecoveryModelError>(
                    OutputRecoveryModelError::OutputKindCannotChange,
                ),
                OutputView::Segment { segment_id, object, .. } => if segment_id
                    == registration.segment_id || object.object_id
                    == registration.object.key.object_id {
                    r == Err::<Self, OutputRecoveryModelError>(
                        OutputRecoveryModelError::ReplacementIdentitiesMustChange,
                    )
                } else if self.revision == u64::MAX {
                    r == Err::<Self, OutputRecoveryModelError>(
                        OutputRecoveryModelError::RecoveryRevisionExhausted,
                    )
                } else if covered_positions(self@.coverage) != registration.row_count {
                    r == Err::<Self, OutputRecoveryModelError>(
                        OutputRecoveryModelError::SegmentRowCoverageMismatch,
                    )
                } else {
                    r matches Ok(record) && record@ == (RecordView {
                        id: self.id,
                        revision: (self.revision + 1) as u64,
                        output: RecoveryOutput::Segment(registration)@,
                        coverage: self@.coverage,
                    }) && record@.consistent()
                },
            },
    {
        match &self.output {
            RecoveryOutput::DeadLetter(_) => {
                return Err(OutputRecoveryModelError::OutputKindCannotChange);
            },
            RecoveryOutput::Segment(current) => {
                if current.segment_id == registration.segment_id || current.object.key.object_id
                    == registration.object.key.object_id {
                    return Err(OutputRecoveryModelError::ReplacementIdentitiesMustChange);
                }
            },
        }
        let revision: u64 = match self.revision.checked_add(1) {
            Some(revision) => revision,
            None => {
                return Err(OutputRecoveryModelError::RecoveryRevisionExhausted);
            },
        };
        let covered_rows: u64 = match validate_coverage(&self.coverage) {
            Ok(count) => count,
            Err(e) => {
                return Err(e);
            },
        };
        if covered_rows != registration.row_count {
            return Err(OutputRecoveryModelError::SegmentRowCoverageMismatch);
        }
        Ok(
            OutputRecoveryRecord {
                id: self.id,
                revision,
                output: RecoveryOutput::Segment(registration),
                coverage: duplicate_coverage(&self.coverage),
            },
        )
    }

    /// What to do about an output in the state in which it was found. An output is rebuilt only
    /// from spool bytes that are still there.
    pub fn recovery_action(
        &self,
        observation: OutputRecoveryObservation,
        retained_spool: RetainedSpoolBytes,
    ) -> (r: Result<OutputRecoveryAction, OutputRecoveryModelError>)
        ensures
            r == if observation.action().rebuilds() && retained_spool is Missing {
                Err::<OutputRecoveryAction, OutputRecoveryModelError>(
                    OutputRecoveryModelError::RetainedSpoolBytesMissing,
                )
            } else {
                Ok::<OutputRecoveryAction, OutputRecoveryModelError>(observation.action())
            },
    {
        let action: OutputRecoveryAction = match observation {
            OutputRecoveryObservation::Unregistered(
                UnregisteredOutputBytes::Available,
            ) => OutputRecoveryAction::Register,
            OutputRecoveryObservation::Unregistered(
                UnregisteredOutputBytes::Missing,
            ) => OutputRecoveryAction::Rebuild,
            OutputRecoveryObservation::Planned(
                PlannedOutputBytes::Available,
            ) => OutputRecoveryAction::Upload,
            OutputRecoveryObservation::Planned(
                PlannedOutputBytes::MissingUnverified,
            ) => OutputRecoveryAction::VerifyExactObject,
            OutputRecoveryObservation::Planned(
                PlannedOutputBytes::MissingVerified,
            ) => OutputRecoveryAction::RecordVerifiedUpload,
            OutputRecoveryObservation::Planned(
                PlannedOutputBytes::MissingAbsent,
            ) => OutputRecoveryAction::AbandonAndRebuild,
            OutputRecoveryObservation::Uploaded => OutputRecoveryAction::Publish,
            OutputRecoveryObservation::Published => OutputRecoveryAction::Complete,
            OutputRecoveryObservation::Abandoned => OutputRecoveryAction::Rebuild,
        };
        let rebuilds: bool = action == OutputRecoveryAction::Rebuild || action
            == OutputRecoveryAction::AbandonAndRebuild;
        if rebuilds && retained_spool == RetainedSpoolBytes::Missing {
            return Err(OutputRecoveryModelError::RetainedSpoolBytesMissing);
        }
        Ok(action)
    }

    /// The identity of the object that holds the output.
    pub fn object_identity(&self) -> (r: StoredObjectId)
        ensures
            r == self@.output.object().object_id,
    {
        self.output.object().key.object_id
    }

    pub fn same_as(&self, other: &Self) -> (r: bool)
        ensures
            r == (self@ == other@),
    {
        self.id == other.id && self.revision == other.revision && self.output.same_as(&other.output)
            && same_coverage(&self.coverage, &other.coverage)
    }
}

/// A published output is never rebuilt, whatever the spool still holds.
pub proof fn published_output_is_never_rebuilt(observation: OutputRecoveryObservation)
    requires
        observation is Published,
    ensures
        observation.action() is Complete,
        !observation.action().rebuilds(),
{
}

/// An output that has reached its published state.
#[derive(Debug)]
pub struct PublishedOutput {
    pub record: OutputRecoveryRecord,
}

impl PublishedOutput {
    pub fn resolve(record: OutputRecoveryRecord, observation: OutputRecoveryObservation) -> (r:
        Result<Self, OutputRecoveryModelError>)
        ensures
            r == if observation is Published {
                Ok::<Self, OutputRecoveryModelError>(PublishedOutput { record })
            } else {
                Err::<Self, OutputRecoveryModelError>(
                    OutputRecoveryModelError::OutputIsNotPublished,
                )
            },
    {
        if observation != OutputRecoveryObservation::Published {
            return Err(OutputRecoveryModelError::OutputIsNotPublished);
        }
        Ok(PublishedOutput { record })
    }
}

/// The occurrences of a batch that must be published before the checkpoint may pass it.
#[derive(Debug)]
pub struct BatchOutputRequirements {
    pub(crate) batch_id: BatchId,
    pub(crate) spool_range: SpoolBatchRange,
    pub(crate) positions: Vec<u64>,
}

impl View for BatchOutputRequirements {
    type V = CoverageView;

    open(crate) spec fn view(&self) -> CoverageView {
        CoverageView {
            batch_id: self.batch_id,
            spool_range: self.spool_range,
            positions: self.positions@,
        }
    }
}

/// What keeps positions from being the requirements of a batch.
pub open spec fn requirements_fault(positions: Seq<u64>) -> Option<OutputRecoveryModelError> {
    if positions.len() > MAXIMUM_COVERED_POSITIONS {
        Some(OutputRecoveryModelError::CoveredPositionLimitExceeded)
    } else if !strictly_increasing(positions) {
        Some(OutputRecoveryModelError::PositionsMustIncrease)
    } else {
        None
    }
}

impl BatchOutputRequirements {
    #[verifier::type_invariant]
    pub(crate) open(crate) spec fn valid(self) -> bool {
        requirements_fault(self.positions@) is None
    }

    pub fn new(batch_id: BatchId, spool_range: SpoolBatchRange, positions: Vec<u64>) -> (r: Result<
        Self,
        OutputRecoveryModelError,
    >)
        ensures
            match r {
                Ok(requirements) => requirements_fault(positions@) is None && requirements@ == (
                CoverageView { batch_id, spool_range, positions: positions@ }),
                Err(e) => requirements_fault(positions@) == Some(e),
            },
    {
        if positions.len() > MAXIMUM_COVERED_POSITIONS {
            return Err(OutputRecoveryModelError::CoveredPositionLimitExceeded);
        }
        if !increases(&positions) {
            return Err(OutputRecoveryModelError::PositionsMustIncrease);
        }
        Ok(BatchOutputRequirements { batch_id, spool_range, positions })
    }

    /// What a normalized batch requires: an output for each of its records.
    pub fn from_normalized(batch: &NormalizedBatch, spool_range: SpoolBatchRange) -> (r: Result<
        Self,
        OutputRecoveryModelError,
    >)
        ensures
            match r {
                Ok(requirements) => requirements_fault(record_positions(batch@.records)) is None
                    && requirements@ == (CoverageView {
                    batch_id: batch@.metadata.batch_id,
                    spool_range,
                    positions: record_positions(batch@.records),
                }),
                Err(e) => requirements_fault(record_positions(batch@.records)) == Some(e),
            },
    {
        let mut positions: Vec<u64> = Vec::new();
        let mut index: usize = 0;
        while index < batch.records.len()
            invariant
                index <= batch.records@.len(),
                positions@.len() == index,
                forall|i: int|
                    0 <= i < index ==> #[trigger] positions@[i]
                        == batch.records@[i]@.location().input_position,
            decreases batch.records@.len() - index,
        {
            let position: u64 = match &batch.records[index] {
                NormalizedRecord::Accepted(row) => row.location().input_position(),
                NormalizedRecord::DeadLetter(entry) => entry.location().input_position(),
            };
            positions.push(position);
            index = index + 1;
        }
        assert(positions@ =~= record_positions(batch@.records));
        BatchOutputRequirements::new(batch.metadata().batch_id(), spool_range, positions)
    }

    pub fn batch_id(&self) -> (r: BatchId)
        ensures
            r == self@.batch_id,
    {
        self.batch_id
    }

    pub fn spool_range(&self) -> (r: SpoolBatchRange)
        ensures
            r == self@.spool_range,
    {
        self.spool_range
    }
}

/// Where the records of a batch start.
pub open spec fn record_positions(records: Seq<OutcomeView>) -> Seq<u64> {
    Seq::new(records.len(), |i: int| records[i].location().input_position)
}

/// What recording an output did.
#[derive(Clone, Copy, Debug, PartialEq, Eq, Structural)]
pub enum OutputRecoveryRecordOutcome {
    Recorded,
    AlreadyRecorded,
}

/// What happened to the records of outputs whose spool data was reclaimed.
#[derive(Clone, Copy, Debug, PartialEq, Eq, Structural)]
pub enum OutputRecoveryReclamation {
    Deferred,
    Reclaimed { records: usize },
}

impl OutputRecoveryReclamation {
    pub fn reclaimed_records(self) -> (r: Option<usize>)
        ensures
            r == match self {
                OutputRecoveryReclamation::Deferred => None::<usize>,
                OutputRecoveryReclamation::Reclaimed { records } => Some(records),
            },
    {
        match self {
            OutputRecoveryReclamation::Deferred => None,
            OutputRecoveryReclamation::Reclaimed { records } => Some(records),
        }
    }
}

/// How far an output has come: nothing is known of it, it is planned, uploaded or published.
pub open spec fn stage_of(observation: OutputRecoveryObservation) -> int {
    match observation {
        OutputRecoveryObservation::Unregistered(_) => 0,
        OutputRecoveryObservation::Abandoned => 0,
        OutputRecoveryObservation::Planned(_) => 1,
        OutputRecoveryObservation::Uploaded => 2,
        OutputRecoveryObservation::Published => 3,
    }
}

/// How far an action brings an output.
pub open spec fn stage_behind(action: OutputRecoveryAction) -> int {
    match action {
        OutputRecoveryAction::Rebuild => 0,
        OutputRecoveryAction::AbandonAndRebuild => 0,
        OutputRecoveryAction::Register => 1,
        OutputRecoveryAction::VerifyExactObject => 1,
        OutputRecoveryAction::Upload => 2,
        OutputRecoveryAction::RecordVerifiedUpload => 2,
        OutputRecoveryAction::Publish => 3,
        OutputRecoveryAction::Complete => 3,
    }
}

/// Whether an action takes the bytes of the output from where they were built.
pub open spec fn uses_local_bytes(action: OutputRecoveryAction) -> bool {
    action is Register || action is Upload
}

/// Whether the bytes of the output are where they were built.
pub open spec fn has_local_bytes(observation: OutputRecoveryObservation) -> bool {
    ||| observation == OutputRecoveryObservation::Unregistered(UnregisteredOutputBytes::Available)
    ||| observation == OutputRecoveryObservation::Planned(PlannedOutputBytes::Available)
}

/// Whether no copy of the bytes of the output is left.
pub open spec fn is_lost(observation: OutputRecoveryObservation) -> bool {
    ||| observation == OutputRecoveryObservation::Unregistered(UnregisteredOutputBytes::Missing)
    ||| observation == OutputRecoveryObservation::Planned(PlannedOutputBytes::MissingAbsent)
    ||| observation is Abandoned
}

/// Recovery brings an output one stage on, unless it is published already, its bytes are lost or it
/// is not known whether they are stored. It takes the local bytes exactly where there are any,
/// builds the output anew exactly where its bytes are lost, and gives up a plan before it does so.
pub proof fn recovery_brings_outputs_on(observation: OutputRecoveryObservation)
    ensures
        observation.action().rebuilds() <==> is_lost(observation),
        observation.action() is AbandonAndRebuild <==> is_lost(observation) && stage_of(observation)
            == 1,
        observation.action() is VerifyExactObject <==> observation
            == OutputRecoveryObservation::Planned(PlannedOutputBytes::MissingUnverified),
        observation.action() is Complete <==> observation is Published,
        uses_local_bytes(observation.action()) <==> has_local_bytes(observation),
        observation.action() is Complete || observation.action() is VerifyExactObject || is_lost(
            observation,
        ) || stage_behind(observation.action()) == stage_of(observation) + 1,
{
}

/// Whether positions increase, there is one, and there are no more than allowed.
pub open spec fn positions_sound(positions: Seq<u64>) -> bool {
    &&& 1 <= positions.len() <= MAXIMUM_COVERED_POSITIONS
    &&& forall|p: int, q: int| 0 <= p < q < positions.len() ==> positions[p] < positions[q]
}

/// Whether each item has sound positions, each batch is listed once, and no batch begins before one
/// that is listed before it ends.
pub open spec fn coverage_sound(coverage: Seq<CoverageView>) -> bool {
    &&& 1 <= coverage.len() <= MAXIMUM_COVERED_BATCHES
    &&& forall|i: int| 0 <= i < coverage.len() ==> positions_sound((#[trigger] coverage[i]).positions)
    &&& forall|i: int, j: int|
        #![trigger coverage[i], coverage[j]]
        0 <= i < j < coverage.len() ==> {
            &&& coverage[i].batch_id != coverage[j].batch_id
            &&& coverage[i].spool_range.spec_end().position
                <= coverage[j].spool_range.spec_start().position
        }
    &&& covered_positions(coverage) <= MAXIMUM_COVERED_POSITIONS
}

proof fn lemma_items_sound(coverage: Seq<CoverageView>)
    ensures
        coverage_items_fault(coverage) is None <==> {
            &&& forall|i: int|
                0 <= i < coverage.len() ==> positions_sound((#[trigger] coverage[i]).positions)
            &&& forall|i: int, j: int|
                #![trigger coverage[i], coverage[j]]
                0 <= i < j < coverage.len() ==> coverage[i].batch_id != coverage[j].batch_id
            &&& covered_positions(coverage) <= MAXIMUM_COVERED_POSITIONS
        },
    decreases coverage.len(),
{
    if coverage.len() > 0 {
        let before = coverage.drop_last();
        let item = coverage.last();
        lemma_items_sound(before);
        assert forall|i: int| 0 <= i < before.len() implies #[trigger] before[i] == coverage[i] by {}
        assert(coverage[coverage.len() - 1] == item);
        if coverage_items_fault(coverage) is None {
            assert forall|i: int, j: int|
                #![trigger coverage[i], coverage[j]]
                0 <= i < j < coverage.len() implies coverage[i].batch_id != coverage[j].batch_id by {
                assert(before[i] == coverage[i]);
                if j < before.len() {
                    assert(before[j] == coverage[j]);
                }
            }
            assert forall|i: int| 0 <= i < coverage.len() implies positions_sound(
                (#[trigger] coverage[i]).positions,
            ) by {
                if i < before.len() {
                    assert(before[i] == coverage[i]);
                }
            }
        } else if (forall|i: int|
            0 <= i < coverage.len() ==> positions_sound((#[trigger] coverage[i]).positions)) && (
        forall|i: int, j: int|
            #![trigger coverage[i], coverage[j]]
            0 <= i < j < coverage.len() ==> coverage[i].batch_id != coverage[j].batch_id)
            && covered_positions(coverage) <= MAXIMUM_COVERED_POSITIONS {
            assert forall|i: int| 0 <= i < before.len() implies positions_sound(
                (#[trigger] before[i]).positions,
            ) by {
                assert(before[i] == coverage[i]);
            }
            assert forall|i: int, j: int|
                #![trigger before[i], before[j]]
                0 <= i < j < before.len() implies before[i].batch_id != before[j].batch_id by {
                assert(before[i] == coverage[i]);
                assert(before[j] == coverage[j]);
            }
            assert(positions_sound(item.positions));
            if covers_batch(before, item.batch_id) {
                let i = choose|i: int|
                    0 <= i < before.len() && (#[trigger] before[i]).batch_id == item.batch_id;
                assert(before[i] == coverage[i]);
            }
        }
    }
}

proof fn lemma_ordered(coverage: Seq<CoverageView>, i: int, j: int)
    requires
        ranges_in_order(coverage),
        forall|k: int|
            0 <= k < coverage.len() ==> (#[trigger] coverage[k]).spool_range.spec_start().position
                <= coverage[k].spool_range.spec_end().position,
        0 <= i < j < coverage.len(),
    ensures
        coverage[i].spool_range.spec_end().position
            <= coverage[j].spool_range.spec_start().position,
    decreases j - i,
{
    if i + 1 < j {
        lemma_ordered(coverage, i, j - 1);
    }
    assert(coverage[j - 1].spool_range.spec_end().position
        <= coverage[j].spool_range.spec_start().position);
}

/// A coverage is accepted exactly if it is sound.
pub proof fn sound_coverages_are_accepted(coverage: Seq<CoverageView>)
    requires
        forall|k: int|
            0 <= k < coverage.len() ==> (#[trigger] coverage[k]).spool_range.spec_start().position
                <= coverage[k].spool_range.spec_end().position,
    ensures
        coverage_fault(coverage) is None <==> coverage_sound(coverage),
{
    lemma_items_sound(coverage);
    if coverage_fault(coverage) is None {
        assert forall|i: int, j: int|
            #![trigger coverage[i], coverage[j]]
            0 <= i < j < coverage.len() implies {
            &&& coverage[i].batch_id != coverage[j].batch_id
            &&& coverage[i].spool_range.spec_end().position
                <= coverage[j].spool_range.spec_start().position
        } by {
            lemma_ordered(coverage, i, j);
        }
    }
    if coverage_sound(coverage) {
        assert forall|i: int| #![trigger coverage[i]] 1 <= i < coverage.len() implies coverage[i
            - 1].spool_range.spec_end().position
            <= coverage[i].spool_range.spec_start().position by {
            assert(coverage[i - 1].batch_id != coverage[i].batch_id);
        }
    }
}

/// What is covered by two coverages is counted for each of them, and what an item covers is its
/// positions.
pub proof fn every_position_is_counted(
    left: Seq<CoverageView>,
    right: Seq<CoverageView>,
    item: CoverageView,
)
    ensures
        covered_positions(left + right) == covered_positions(left) + covered_positions(right),
        covered_positions(seq![item]) == item.positions.len(),
    decreases right.len(),
{
    if right.len() == 0 {
        assert(left + right =~= left);
    } else {
        every_position_is_counted(left, right.drop_last(), item);
        assert((left + right).drop_last() =~= left + right.drop_last());
    }
    assert(seq![item].drop_last() =~= Seq::empty());
    assert(covered_positions(seq![item].drop_last()) == 0);
}

/// A batch may require no position at all, but else its positions are as those of a coverage.
pub proof fn requirements_are_increasing_positions(positions: Seq<u64>)
    ensures
        requirements_fault(positions) is None <==> positions.len() == 0 || positions_sound(
            positions,
        ),
        positions_fault(positions) is None <==> positions_sound(positions),
{
}

} // verus!
