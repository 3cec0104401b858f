//! Values of the spool.

use vstd::prelude::*;

use crate::calendar::{day_of, utc_representable};
use crate::digest::{blake3_digest, digest};
use crate::identity::{BatchId, IngestionProfileRevisionId, InputId, SchemaId, SourceId};
use crate::ingestion::error::{SpoolError, SpoolInvariant, SpoolModelError};

verus! {

/// The number of bytes that the spool may occupy.
#[derive(Clone, Copy, Debug, PartialEq, Eq, PartialOrd, Ord, Hash, Structural)]
pub struct SpoolCapacity {
    pub(crate) value: u64,
}

impl SpoolCapacity {
    #[verifier::type_invariant]
    pub(crate) open(crate) spec fn valid(self) -> bool {
        self.value > 0
    }

    pub open(crate) spec fn spec_get(self) -> u64 {
        self.value
    }

    pub fn new(value: u64) -> (r: Result<Self, SpoolModelError>)
        ensures
            match r {
                Ok(limit) => value > 0 && limit.spec_get() == value,
                Err(e) => value == 0 && e == SpoolModelError::CapacityMustBePositive,
            },
    {
        if value == 0 {
            Err(SpoolModelError::CapacityMustBePositive)
        } else {
            Ok(SpoolCapacity { value })
        }
    }

    pub fn get(self) -> (r: u64)
        ensures
            r == self.spec_get(),
            r > 0,
    {
        proof {
            use_type_invariant(&self);
        }
        self.value
    }
}

/// The largest batch body that one append may hold.
#[derive(Clone, Copy, Debug, PartialEq, Eq, PartialOrd, Ord, Hash, Structural)]
pub struct AppendBodyLimit {
    pub(crate) value: u64,
}

impl AppendBodyLimit {
    #[verifier::type_invariant]
    pub(crate) open(crate) spec fn valid(self) -> bool {
        self.value > 0
    }

    pub open(crate) spec fn spec_get(self) -> u64 {
        self.value
    }

    pub fn new(value: u64) -> (r: Result<Self, SpoolModelError>)
        ensures
            match r {
                Ok(limit) => value > 0 && limit.spec_get() == value,
                Err(e) => value == 0 && e == SpoolModelError::AppendBodyLimitMustBePositive,
            },
    {
        if value == 0 {
            Err(SpoolModelError::AppendBodyLimitMustBePositive)
        } else {
            Ok(AppendBodyLimit { value })
        }
    }

    pub fn get(self) -> (r: u64)
        ensures
            r == self.spec_get(),
            r > 0,
    {
        proof {
            use_type_invariant(&self);
        }
        self.value
    }
}

/// The number of bytes of a batch body.
#[derive(Clone, Copy, Debug, PartialEq, Eq, PartialOrd, Ord, Hash, Structural)]
pub struct BatchByteSize {
    pub value: u64,
}

impl BatchByteSize {
    pub fn new(value: u64) -> (r: Self)
        ensures
            r.value == value,
    {
        BatchByteSize { value }
    }

    pub fn get(self) -> (r: u64)
        ensures
            r == self.value,
    {
        self.value
    }
}

/// The digest of a batch body.
#[derive(Clone, Copy, Debug, PartialEq, Eq, Hash)]
pub struct BodyDigest {
    pub bytes: [u8; 32],
}

impl BodyDigest {
    pub fn calculate(bytes: &[u8]) -> (r: Self)
        ensures
            r.bytes == blake3_digest(bytes@),
    {
        BodyDigest { bytes: digest(bytes) }
    }

    pub fn as_bytes(&self) -> (r: &[u8; 32])
        ensures
            r@ == self.bytes@,
    {
        &self.bytes
    }
}

/// The instant at which a batch was admitted.
#[derive(Clone, Copy, Debug, PartialEq, Eq, PartialOrd, Ord, Hash, Structural)]
pub struct IngestionTime {
    pub(crate) milliseconds: i64,
}

impl IngestionTime {
    #[verifier::type_invariant]
    pub(crate) open(crate) spec fn valid(self) -> bool {
        utc_representable(self.milliseconds as int)
    }

    pub open(crate) spec fn spec_milliseconds(self) -> i64 {
        self.milliseconds
    }

    pub fn from_unix_milliseconds(value: i64) -> (r: Result<Self, SpoolModelError>)
        ensures
            match r {
                Ok(time) => utc_representable(value as int) && time.spec_milliseconds() == value,
                Err(e) => !utc_representable(value as int) && e
                    == SpoolModelError::IngestionTimeOutOfRange,
            },
    {
        match day_of(value) {
            Some(_) => Ok(IngestionTime { milliseconds: value }),
            None => Err(SpoolModelError::IngestionTimeOutOfRange),
        }
    }

    pub fn unix_milliseconds(self) -> (r: i64)
        ensures
            r == self.spec_milliseconds(),
            utc_representable(r as int),
    {
        proof {
            use_type_invariant(&self);
        }
        self.milliseconds
    }
}

/// The catalog definitions that were current when a batch was admitted.
#[derive(Clone, Copy, Debug, PartialEq, Eq, Structural)]
pub struct PinnedCatalogIdentities {
    pub source_id: SourceId,
    pub input_id: InputId,
    pub profile_revision_id: IngestionProfileRevisionId,
    pub target_schema_id: SchemaId,
}

impl PinnedCatalogIdentities {
    pub fn new(
        source_id: SourceId,
        input_id: InputId,
        profile_revision_id: IngestionProfileRevisionId,
        target_schema_id: SchemaId,
    ) -> (r: Self)
        ensures
            r == (PinnedCatalogIdentities { source_id, input_id, profile_revision_id, target_schema_id }),
    {
        PinnedCatalogIdentities { source_id, input_id, profile_revision_id, target_schema_id }
    }

    pub fn source_id(self) -> (r: SourceId)
        ensures
            r == self.source_id,
    {
        self.source_id
    }

    pub fn input_id(self) -> (r: InputId)
        ensures
            r == self.input_id,
    {
        self.input_id
    }

    pub fn profile_revision_id(self) -> (r: IngestionProfileRevisionId)
        ensures
            r == self.profile_revision_id,
    {
        self.profile_revision_id
    }

    pub fn target_schema_id(self) -> (r: SchemaId)
        ensures
            r == self.target_schema_id,
    {
        self.target_schema_id
    }
}

/// What is stored beside the body of a batch.
#[derive(Clone, Copy, Debug, PartialEq, Eq, Structural)]
pub struct BatchMetadata {
    pub batch_id: BatchId,
    pub catalog: PinnedCatalogIdentities,
    pub ingestion_time: IngestionTime,
}

impl BatchMetadata {
    pub fn new(
        batch_id: BatchId,
        catalog: PinnedCatalogIdentities,
        ingestion_time: IngestionTime,
    ) -> (r: Self)
        ensures
            r == (BatchMetadata { batch_id, catalog, ingestion_time }),
    {
        BatchMetadata { batch_id, catalog, ingestion_time }
    }

    pub fn batch_id(self) -> (r: BatchId)
        ensures
            r == self.batch_id,
    {
        self.batch_id
    }

    pub fn catalog(self) -> (r: PinnedCatalogIdentities)
        ensures
            r == self.catalog,
    {
        self.catalog
    }

    pub fn ingestion_time(self) -> (r: IngestionTime)
        ensures
            r == self.ingestion_time,
    {
        self.ingestion_time
    }
}

/// A position in the spool up to which every batch has been published.
#[derive(Clone, Copy, Debug, PartialEq, Eq, PartialOrd, Ord, Hash, Structural)]
pub struct SpoolCheckpoint {
    pub position: u64,
}

impl SpoolCheckpoint {
    /// The checkpoint of a spool of which nothing has been published.
    pub fn initial() -> (r: Self)
        ensures
            r.position == 0,
    {
        SpoolCheckpoint { position: 0 }
    }

    pub fn from_position(position: u64) -> (r: Self)
        ensures
            r.position == position,
    {
        SpoolCheckpoint { position }
    }

    pub fn position(self) -> (r: u64)
        ensures
            r == self.position,
    {
        self.position
    }
}

/// The bytes of the spool that one batch occupies.
#[derive(Clone, Copy, Debug, PartialEq, Eq, PartialOrd, Ord, Hash, Structural)]
pub struct SpoolBatchRange {
    pub(crate) start: SpoolCheckpoint,
    pub(crate) end: SpoolCheckpoint,
}

impl SpoolBatchRange {
    #[verifier::type_invariant]
    pub(crate) open(crate) spec fn valid(self) -> bool {
        self.start.position < self.end.position
    }

    pub open(crate) spec fn spec_start(self) -> SpoolCheckpoint {
        self.start
    }

    pub open(crate) spec fn spec_end(self) -> SpoolCheckpoint {
        self.end
    }

    pub fn new(start: u64, end: u64) -> (r: Result<Self, SpoolError>)
        ensures
            match r {
                Ok(range) => start < end && range.spec_start().position == start
                    && range.spec_end().position == end,
                Err(e) => start >= end && e == SpoolError::spec_unavailable(
                    SpoolInvariant::RangeInvalid,
                ),
            },
    {
        if start < end {
            Ok(
                SpoolBatchRange {
                    start: SpoolCheckpoint { position: start },
                    end: SpoolCheckpoint { position: end },
                },
            )
        } else {
            Err(SpoolError::unavailable(SpoolInvariant::RangeInvalid))
        }
    }

    pub fn start(self) -> (r: SpoolCheckpoint)
        ensures
            r == self.spec_start(),
            r.position < self.spec_end().position,
    {
        proof {
            use_type_invariant(&self);
        }
        self.start
    }

    pub fn end(self) -> (r: SpoolCheckpoint)
        ensures
            r == self.spec_end(),
            self.spec_start().position < r.position,
    {
        proof {
            use_type_invariant(&self);
        }
        self.end
    }
}

/// A batch that has been appended and synchronized.
#[derive(Clone, Copy, Debug, PartialEq, Eq)]
pub struct DurableAppend {
    pub metadata: BatchMetadata,
    pub body_bytes: BatchByteSize,
    pub body_digest: BodyDigest,
    pub range: SpoolBatchRange,
}

impl DurableAppend {
    pub fn new(
        metadata: BatchMetadata,
        body_bytes: BatchByteSize,
        body_digest: BodyDigest,
        range: SpoolBatchRange,
    ) -> (r: Self)
        ensures
            r == (DurableAppend { metadata, body_bytes, body_digest, range }),
    {
        DurableAppend { metadata, body_bytes, body_digest, range }
    }

    pub fn metadata(self) -> (r: BatchMetadata)
        ensures
            r == self.metadata,
    {
        self.metadata
    }

    pub fn body_bytes(self) -> (r: BatchByteSize)
        ensures
            r == self.body_bytes,
    {
        self.body_bytes
    }

    pub fn body_digest(self) -> (r: BodyDigest)
        ensures
            r == self.body_digest,
    {
        self.body_digest
    }

    pub fn range(self) -> (r: SpoolBatchRange)
        ensures
            r == self.range,
    {
        self.range
    }
}

/// What happened to checkpointed spool data.
#[derive(Clone, Copy, Debug, PartialEq, Eq, Structural)]
pub enum SpoolReclamation {
    Deferred,
    Reclaimed { bytes: u64 },
}

impl SpoolReclamation {
    pub fn reclaimed_bytes(self) -> (r: Option<u64>)
        ensures
            r == match self {
                SpoolReclamation::Deferred => None::<u64>,
                SpoolReclamation::Reclaimed { bytes } => Some(bytes),
            },
    {
        match self {
            SpoolReclamation::Deferred => None,
            SpoolReclamation::Reclaimed { bytes } => Some(bytes),
        }
    }
}

/// How many bytes of the spool are in use.
#[derive(Clone, Copy, Debug, PartialEq, Eq, Structural)]
pub struct SpoolUsage {
    pub capacity_bytes: u64,
    pub committed_bytes: u64,
    pub reserved_bytes: u64,
    pub available_bytes: u64,
}

/// What is left of `capacity` when `occupied` bytes are in use.
pub open spec fn remaining_capacity(capacity: int, occupied: int) -> int {
    if occupied <= capacity {
        capacity - occupied
    } else {
        0
    }
}

impl SpoolUsage {
    pub fn new(capacity_bytes: u64, committed_bytes: u64, reserved_bytes: u64) -> (r: Result<
        Self,
        SpoolError,
    >)
        ensures
            match r {
                Ok(usage) => {
                    &&& committed_bytes + reserved_bytes <= u64::MAX
                    &&& usage.capacity_bytes == capacity_bytes
                    &&& usage.committed_bytes == committed_bytes
                    &&& usage.reserved_bytes == reserved_bytes
                    &&& usage.available_bytes == remaining_capacity(
                        capacity_bytes as int,
                        committed_bytes + reserved_bytes,
                    )
                },
                Err(e) => committed_bytes + reserved_bytes > u64::MAX && e
                    == SpoolError::spec_unavailable(SpoolInvariant::UsageOverflow),
            },
    {
        match committed_bytes.checked_add(reserved_bytes) {
            Some(occupied_bytes) => Ok(
                SpoolUsage {
                    capacity_bytes,
                    committed_bytes,
                    reserved_bytes,
                    available_bytes: capacity_bytes.saturating_sub(occupied_bytes),
                },
            ),
            None => Err(SpoolError::unavailable(SpoolInvariant::UsageOverflow)),
        }
    }

    pub fn capacity_bytes(self) -> (r: u64)
        ensures
            r == self.capacity_bytes,
    {
        self.capacity_bytes
    }

    pub fn committed_bytes(self) -> (r: u64)
        ensures
            r == self.committed_bytes,
    {
        self.committed_bytes
    }

    pub fn reserved_bytes(self) -> (r: u64)
        ensures
            r == self.reserved_bytes,
    {
        self.reserved_bytes
    }

    pub fn available_bytes(self) -> (r: u64)
        ensures
            r == self.available_bytes,
    {
        self.available_bytes
    }
}

/// Whether one more batch of the largest size can be admitted.
#[derive(Clone, Copy, Debug, PartialEq, Eq, Structural)]
pub enum MaximumBatchAdmission {
    Available,
    CapacityExhausted,
}

/// What recovery found in the spool.
#[derive(Clone, Copy, Debug, PartialEq, Eq, Structural)]
pub struct RecoveryReport {
    pub checkpoint: SpoolCheckpoint,
    pub committed_batches: u64,
    pub pending_batches: u64,
    pub committed_bytes: u64,
    pub discarded_tail_bytes: u64,
    pub maximum_batch_admission: MaximumBatchAdmission,
}

impl RecoveryReport {
    pub fn new(
        checkpoint: SpoolCheckpoint,
        committed_batches: u64,
        pending_batches: u64,
        committed_bytes: u64,
        discarded_tail_bytes: u64,
        maximum_batch_admission: MaximumBatchAdmission,
    ) -> (r: Self)
        ensures
            r == (RecoveryReport {
                checkpoint,
                committed_batches,
                pending_batches,
                committed_bytes,
                discarded_tail_bytes,
                maximum_batch_admission,
            }),
    {
        RecoveryReport {
            checkpoint,
            committed_batches,
            pending_batches,
            committed_bytes,
            discarded_tail_bytes,
            maximum_batch_admission,
        }
    }

    pub fn checkpoint(self) -> (r: SpoolCheckpoint)
        ensures
            r == self.checkpoint,
    {
        self.checkpoint
    }

    pub fn committed_batches(self) -> (r: u64)
        ensures
            r == self.committed_batches,
    {
        self.committed_batches
    }

    pub fn pending_batches(self) -> (r: u64)
        ensures
            r == self.pending_batches,
    {
        self.pending_batches
    }

    pub fn committed_bytes(self) -> (r: u64)
        ensures
            r == self.committed_bytes,
    {
        self.committed_bytes
    }

    pub fn discarded_tail_bytes(self) -> (r: u64)
        ensures
            r == self.discarded_tail_bytes,
    {
        self.discarded_tail_bytes
    }

    pub fn maximum_batch_admission(self) -> (r: MaximumBatchAdmission)
        ensures
            r == self.maximum_batch_admission,
    {
        self.maximum_batch_admission
    }
}

/// A committed batch that was read back.
#[derive(Clone, Debug, PartialEq, Eq)]
pub struct RecoveredBatch {
    pub metadata: BatchMetadata,
    pub body: Vec<u8>,
    pub body_digest: BodyDigest,
    pub range: SpoolBatchRange,
}

impl RecoveredBatch {
    pub fn metadata(&self) -> (r: BatchMetadata)
        ensures
            r == self.metadata,
    {
        self.metadata
    }

    pub fn body(&self) -> (r: &[u8])
        ensures
            r@ == self.body@,
    {
        self.body.as_slice()
    }

    pub fn body_digest(&self) -> (r: BodyDigest)
        ensures
            r == self.body_digest,
    {
        self.body_digest
    }

    pub fn range(&self) -> (r: SpoolBatchRange)
        ensures
            r == self.range,
    {
        self.range
    }
}

} // verus!
