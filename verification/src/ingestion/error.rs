//! Failures of the spool.

use vstd::prelude::*;
use vstd::std_specs::convert::FromSpecImpl;

verus! {

/// The class of a spool failure.
#[derive(Clone, Copy, Debug, PartialEq, Eq, Structural)]
pub enum SpoolErrorKind {
    CapacityExhausted,
    BatchLimitExceeded,
    Corrupt,
    Unavailable,
}

/// The stable code under which a failure is reported.
#[derive(Clone, Copy, Debug, PartialEq, Eq, Structural)]
pub enum ErrorCode {
    CapacityExhausted,
    IngestionBatchLimitExceeded,
    SpoolCorrupt,
    SpoolUnavailable,
}

impl ErrorCode {
    pub open spec fn spec_str(self) -> Seq<char> {
        match self {
            ErrorCode::CapacityExhausted => "CAPACITY_EXHAUSTED"@,
            ErrorCode::IngestionBatchLimitExceeded => "INGESTION_BATCH_LIMIT_EXCEEDED"@,
            ErrorCode::SpoolCorrupt => "SPOOL_CORRUPT"@,
            ErrorCode::SpoolUnavailable => "SPOOL_UNAVAILABLE"@,
        }
    }

    pub fn as_str(self) -> (r: &'static str)
        ensures
            r@ == self.spec_str(),
    {
        match self {
            ErrorCode::CapacityExhausted => "CAPACITY_EXHAUSTED",
            ErrorCode::IngestionBatchLimitExceeded => "INGESTION_BATCH_LIMIT_EXCEEDED",
            ErrorCode::SpoolCorrupt => "SPOOL_CORRUPT",
            ErrorCode::SpoolUnavailable => "SPOOL_UNAVAILABLE",
        }
    }
}

impl FromSpecImpl<SpoolErrorKind> for ErrorCode {
    open spec fn obeys_from_spec() -> bool {
        true
    }

    open spec fn from_spec(kind: SpoolErrorKind) -> ErrorCode {
        kind.code()
    }
}

impl From<SpoolErrorKind> for ErrorCode {
    fn from(kind: SpoolErrorKind) -> (r: ErrorCode) {
        match kind {
            SpoolErrorKind::CapacityExhausted => ErrorCode::CapacityExhausted,
            SpoolErrorKind::BatchLimitExceeded => ErrorCode::IngestionBatchLimitExceeded,
            SpoolErrorKind::Corrupt => ErrorCode::SpoolCorrupt,
            SpoolErrorKind::Unavailable => ErrorCode::SpoolUnavailable,
        }
    }
}

impl SpoolErrorKind {
    pub open spec fn code(self) -> ErrorCode {
        match self {
            SpoolErrorKind::CapacityExhausted => ErrorCode::CapacityExhausted,
            SpoolErrorKind::BatchLimitExceeded => ErrorCode::IngestionBatchLimitExceeded,
            SpoolErrorKind::Corrupt => ErrorCode::SpoolCorrupt,
            SpoolErrorKind::Unavailable => ErrorCode::SpoolUnavailable,
        }
    }

    pub fn as_str(self) -> (r: &'static str)
        ensures
            r@ == self.code().spec_str(),
    {
        ErrorCode::from(self).as_str()
    }
}

/// What is wrong with spool bytes that were read back.
#[derive(Clone, Copy, Debug, PartialEq, Eq, Structural)]
pub enum SpoolCorruption {
    FrameMagic,
    FrameVersion,
    FrameHeaderLength,
    FrameLength,
    FrameBodyLength,
    FrameBatchIdentity,
    FrameSourceIdentity,
    FrameInputIdentity,
    FrameProfileIdentity,
    FrameSchemaIdentity,
    FrameIngestionTime,
    FramePosition,
    BodyDigest,
    CommitFooter,
    IncompletePrefix,
    IncompleteVersion,
    IncompleteFraming,
    IncompleteLength,
    CheckpointBoundary,
    CheckpointMissing,
    CheckpointLength,
    CheckpointMagic,
    CheckpointVersion,
    CheckpointFraming,
    CheckpointDigest,
    DataMissing,
    FilesIncomplete,
    RecoveredFramePosition,
    RecoveredRange,
    CommittedDataChanged,
}

impl SpoolCorruption {
    pub open spec fn spec_message(self) -> Seq<char> {
        match self {
            SpoolCorruption::FrameMagic => "spool frame magic is invalid"@,
            SpoolCorruption::FrameVersion => "spool frame version is unsupported"@,
            SpoolCorruption::FrameHeaderLength => "spool frame header length is invalid"@,
            SpoolCorruption::FrameLength => "spool frame length is invalid"@,
            SpoolCorruption::FrameBodyLength => "spool frame body exceeds the configured maximum"@,
            SpoolCorruption::FrameBatchIdentity => "spool frame batch identity is invalid"@,
            SpoolCorruption::FrameSourceIdentity => "spool frame source identity is invalid"@,
            SpoolCorruption::FrameInputIdentity => "spool frame input identity is invalid"@,
            SpoolCorruption::FrameProfileIdentity => "spool frame profile revision identity is invalid"@,
            SpoolCorruption::FrameSchemaIdentity => "spool frame schema identity is invalid"@,
            SpoolCorruption::FrameIngestionTime => "spool frame ingestion time is invalid"@,
            SpoolCorruption::FramePosition => "spool frame position overflows u64"@,
            SpoolCorruption::BodyDigest => "spool frame body digest does not match"@,
            SpoolCorruption::CommitFooter => "spool frame commit footer does not match"@,
            SpoolCorruption::IncompletePrefix => "incomplete spool tail is not a frame prefix"@,
            SpoolCorruption::IncompleteVersion => "incomplete spool tail has an unsupported version"@,
            SpoolCorruption::IncompleteFraming => "incomplete spool tail has invalid framing"@,
            SpoolCorruption::IncompleteLength => "incomplete spool tail has an invalid length"@,
            SpoolCorruption::CheckpointBoundary => "spool checkpoint is not a committed frame boundary"@,
            SpoolCorruption::CheckpointMissing => "spool checkpoint is missing"@,
            SpoolCorruption::CheckpointLength => "spool checkpoint length is invalid"@,
            SpoolCorruption::CheckpointMagic => "spool checkpoint magic is invalid"@,
            SpoolCorruption::CheckpointVersion => "spool checkpoint version is unsupported"@,
            SpoolCorruption::CheckpointFraming => "spool checkpoint framing is invalid"@,
            SpoolCorruption::CheckpointDigest => "spool checkpoint digest does not match"@,
            SpoolCorruption::DataMissing => "spool data file is missing"@,
            SpoolCorruption::FilesIncomplete => "spool data and checkpoint files are incomplete"@,
            SpoolCorruption::RecoveredFramePosition => "recovered spool frame position overflows u64"@,
            SpoolCorruption::RecoveredRange => "recovered spool frame exceeds its committed range"@,
            SpoolCorruption::CommittedDataChanged => "committed spool data changed after recovery"@,
        }
    }

    pub fn message(self) -> (r: &'static str)
        ensures
            r@ == self.spec_message(),
    {
        match self {
            SpoolCorruption::FrameMagic => "spool frame magic is invalid",
            SpoolCorruption::FrameVersion => "spool frame version is unsupported",
            SpoolCorruption::FrameHeaderLength => "spool frame header length is invalid",
            SpoolCorruption::FrameLength => "spool frame length is invalid",
            SpoolCorruption::FrameBodyLength => "spool frame body exceeds the configured maximum",
            SpoolCorruption::FrameBatchIdentity => "spool frame batch identity is invalid",
            SpoolCorruption::FrameSourceIdentity => "spool frame source identity is invalid",
            SpoolCorruption::FrameInputIdentity => "spool frame input identity is invalid",
            SpoolCorruption::FrameProfileIdentity => "spool frame profile revision identity is invalid",
            SpoolCorruption::FrameSchemaIdentity => "spool frame schema identity is invalid",
            SpoolCorruption::FrameIngestionTime => "spool frame ingestion time is invalid",
            SpoolCorruption::FramePosition => "spool frame position overflows u64",
            SpoolCorruption::BodyDigest => "spool frame body digest does not match",
            SpoolCorruption::CommitFooter => "spool frame commit footer does not match",
            SpoolCorruption::IncompletePrefix => "incomplete spool tail is not a frame prefix",
            SpoolCorruption::IncompleteVersion => "incomplete spool tail has an unsupported version",
            SpoolCorruption::IncompleteFraming => "incomplete spool tail has invalid framing",
            SpoolCorruption::IncompleteLength => "incomplete spool tail has an invalid length",
            SpoolCorruption::CheckpointBoundary => "spool checkpoint is not a committed frame boundary",
            SpoolCorruption::CheckpointMissing => "spool checkpoint is missing",
            SpoolCorruption::CheckpointLength => "spool checkpoint length is invalid",
            SpoolCorruption::CheckpointMagic => "spool checkpoint magic is invalid",
            SpoolCorruption::CheckpointVersion => "spool checkpoint version is unsupported",
            SpoolCorruption::CheckpointFraming => "spool checkpoint framing is invalid",
            SpoolCorruption::CheckpointDigest => "spool checkpoint digest does not match",
            SpoolCorruption::DataMissing => "spool data file is missing",
            SpoolCorruption::FilesIncomplete => "spool data and checkpoint files are incomplete",
            SpoolCorruption::RecoveredFramePosition => "recovered spool frame position overflows u64",
            SpoolCorruption::RecoveredRange => "recovered spool frame exceeds its committed range",
            SpoolCorruption::CommittedDataChanged => "committed spool data changed after recovery",
        }
    }
}

/// Which condition keeps the spool from going on.
#[derive(Clone, Copy, Debug, PartialEq, Eq, Structural)]
pub enum SpoolInvariant {
    UsageOverflow,
    AccountingOverflow,
    ReservationOverflow,
    FrameLengthOverflow,
    ReservationSizeOverflow,
    AppendPositionOverflow,
    AppendExceedsReservation,
    CommittedOverflow,
    CheckpointPlanStale,
    CheckpointPlanExceedsData,
    Unavailable,
    ReaderFailed,
    RangeInvalid,
    NotADirectory,
    LockPoisoned,
}

impl SpoolInvariant {
    pub open spec fn spec_message(self) -> Seq<char> {
        match self {
            SpoolInvariant::UsageOverflow => "spool usage overflow"@,
            SpoolInvariant::AccountingOverflow => "spool accounting overflow"@,
            SpoolInvariant::ReservationOverflow => "spool reservation accounting overflow"@,
            SpoolInvariant::FrameLengthOverflow => "spool frame length overflow"@,
            SpoolInvariant::ReservationSizeOverflow => "spool reservation size overflow"@,
            SpoolInvariant::AppendPositionOverflow => "spool append position overflow"@,
            SpoolInvariant::AppendExceedsReservation => "durable append does not fit its capacity reservation"@,
            SpoolInvariant::CommittedOverflow => "committed spool byte count overflow"@,
            SpoolInvariant::CheckpointPlanStale => "checkpoint plan is stale"@,
            SpoolInvariant::CheckpointPlanExceedsData => "checkpoint plan exceeds committed spool data"@,
            SpoolInvariant::Unavailable => "spool is unavailable until process restart and recovery"@,
            SpoolInvariant::ReaderFailed => "recovered spool reader is unavailable after a previous failure"@,
            SpoolInvariant::RangeInvalid => "spool batch range is empty or reversed"@,
            SpoolInvariant::NotADirectory => "configured spool path is not a directory"@,
            SpoolInvariant::LockPoisoned => "spool lock is poisoned"@,
        }
    }

    pub fn message(self) -> (r: &'static str)
        ensures
            r@ == self.spec_message(),
    {
        match self {
            SpoolInvariant::UsageOverflow => "spool usage overflow",
            SpoolInvariant::AccountingOverflow => "spool accounting overflow",
            SpoolInvariant::ReservationOverflow => "spool reservation accounting overflow",
            SpoolInvariant::FrameLengthOverflow => "spool frame length overflow",
            SpoolInvariant::ReservationSizeOverflow => "spool reservation size overflow",
            SpoolInvariant::AppendPositionOverflow => "spool append position overflow",
            SpoolInvariant::AppendExceedsReservation => "durable append does not fit its capacity reservation",
            SpoolInvariant::CommittedOverflow => "committed spool byte count overflow",
            SpoolInvariant::CheckpointPlanStale => "checkpoint plan is stale",
            SpoolInvariant::CheckpointPlanExceedsData => "checkpoint plan exceeds committed spool data",
            SpoolInvariant::Unavailable => "spool is unavailable until process restart and recovery",
            SpoolInvariant::ReaderFailed => "recovered spool reader is unavailable after a previous failure",
            SpoolInvariant::RangeInvalid => "spool batch range is empty or reversed",
            SpoolInvariant::NotADirectory => "configured spool path is not a directory",
            SpoolInvariant::LockPoisoned => "spool lock is poisoned",
        }
    }
}

/// What led to a spool failure. The failures of the operating system are reported by the caller
/// that made the system call.
#[derive(Clone, Copy, Debug, PartialEq, Eq, Structural)]
pub enum SpoolErrorSource {
    Capacity { required_bytes: u64, available_bytes: u64 },
    BatchLimit { actual_bytes: u64, maximum_bytes: u64 },
    Corrupt(SpoolCorruption),
    Invariant(SpoolInvariant),
}

impl SpoolErrorSource {
    pub open spec fn spec_kind(self) -> SpoolErrorKind {
        match self {
            SpoolErrorSource::Capacity { .. } => SpoolErrorKind::CapacityExhausted,
            SpoolErrorSource::BatchLimit { .. } => SpoolErrorKind::BatchLimitExceeded,
            SpoolErrorSource::Corrupt(_) => SpoolErrorKind::Corrupt,
            SpoolErrorSource::Invariant(_) => SpoolErrorKind::Unavailable,
        }
    }
}

/// A spool failure.
#[derive(Clone, Copy, Debug, PartialEq, Eq, Structural)]
pub struct SpoolError {
    pub source: SpoolErrorSource,
}

impl SpoolError {
    pub fn kind(&self) -> (r: SpoolErrorKind)
        ensures
            r == self.source.spec_kind(),
    {
        match self.source {
            SpoolErrorSource::Capacity { .. } => SpoolErrorKind::CapacityExhausted,
            SpoolErrorSource::BatchLimit { .. } => SpoolErrorKind::BatchLimitExceeded,
            SpoolErrorSource::Corrupt(_) => SpoolErrorKind::Corrupt,
            SpoolErrorSource::Invariant(_) => SpoolErrorKind::Unavailable,
        }
    }

    pub fn error_code(&self) -> (r: ErrorCode)
        ensures
            r == self.source.spec_kind().code(),
    {
        ErrorCode::from(self.kind())
    }

    pub open spec fn spec_corrupt(corruption: SpoolCorruption) -> SpoolError {
        SpoolError { source: SpoolErrorSource::Corrupt(corruption) }
    }

    pub fn corrupt(corruption: SpoolCorruption) -> (r: SpoolError)
        ensures
            r == SpoolError::spec_corrupt(corruption),
    {
        SpoolError { source: SpoolErrorSource::Corrupt(corruption) }
    }

    pub open spec fn spec_unavailable(broken: SpoolInvariant) -> SpoolError {
        SpoolError { source: SpoolErrorSource::Invariant(broken) }
    }

    pub fn unavailable(broken: SpoolInvariant) -> (r: SpoolError)
        ensures
            r == SpoolError::spec_unavailable(broken),
    {
        SpoolError { source: SpoolErrorSource::Invariant(broken) }
    }

    pub open spec fn spec_capacity(required_bytes: u64, available_bytes: u64) -> SpoolError {
        SpoolError { source: SpoolErrorSource::Capacity { required_bytes, available_bytes } }
    }

    pub fn capacity(required_bytes: u64, available_bytes: u64) -> (r: SpoolError)
        ensures
            r == SpoolError::spec_capacity(required_bytes, available_bytes),
    {
        SpoolError { source: SpoolErrorSource::Capacity { required_bytes, available_bytes } }
    }

    pub open spec fn spec_batch_limit(actual_bytes: u64, maximum_bytes: u64) -> SpoolError {
        SpoolError { source: SpoolErrorSource::BatchLimit { actual_bytes, maximum_bytes } }
    }

    pub fn batch_limit(actual_bytes: u64, maximum_bytes: u64) -> (r: SpoolError)
        ensures
            r == SpoolError::spec_batch_limit(actual_bytes, maximum_bytes),
    {
        SpoolError { source: SpoolErrorSource::BatchLimit { actual_bytes, maximum_bytes } }
    }
}

/// Why a value of the spool model is refused.
#[derive(Clone, Copy, Debug, PartialEq, Eq, Structural)]
pub enum SpoolModelError {
    CapacityMustBePositive,
    AppendBodyLimitMustBePositive,
    IngestionTimeOutOfRange,
}

} // verus!
