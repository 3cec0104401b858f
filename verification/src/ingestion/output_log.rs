//! The framing of the log in which recovery records are kept, and the records that it holds.

use vstd::prelude::*;

use crate::codec::{
    be_bytes, be_value, copy_range, lemma_be_bytes_len, lemma_be_bytes_of_be_value, lemma_be_limits,
    lemma_be_value_bound, lemma_be_value_of_be_bytes, matches_at, push_be, push_bytes, read_be,
};
use crate::digest::{blake3_digest, digest, digest_of_pair};
use crate::ingestion::output_recovery::{
    same_coverage, BatchPositionCoverage, ManagedObjectKey, OutputRecoveryId,
    OutputRecoveryModelError, OutputRecoveryReclamation, OutputRecoveryRecord,
    OutputRecoveryRecordOutcome, RecordView, RecoveryOutput,
};
use crate::ingestion::model::SpoolReclamation;
use crate::ingestion::recovery::SpoolRead;

verus! {

pub const RECOVERY_FORMAT_VERSION: u16 = 1;

pub const RECOVERY_HEADER_BYTES: usize = 76;

pub const RECOVERY_FOOTER_BYTES: usize = 48;

pub const MAXIMUM_RECOVERY_PAYLOAD_BYTES: u64 = 8_388_608;

pub const MAXIMUM_RECOVERY_RECORDS: usize = 1_000_000;

/// What is wrong with log bytes that were read back.
#[derive(Clone, Copy, Debug, PartialEq, Eq, Structural)]
pub enum RecoveryLogCorruption {
    NotADirectory,
    Magic,
    Version,
    HeaderLength,
    PayloadLength,
    IncompletePrefix,
    IncompleteVersion,
    IncompleteFraming,
    IncompletePayloadLength,
    FramePosition,
    PayloadDigest,
    CommitFooter,
    PayloadMetadata,
    Identities,
    Revisions,
    ObjectIdentityReused,
    RecordLimit,
    UuidText,
    RecoveryIdentity,
    RevisionZero,
    Coverage,
    SourceIdentity,
    SchemaIdentity,
    InputIdentity,
    BatchIdentity,
    SpoolRange,
    Positions,
    EventDay,
    Timestamp,
    SegmentTimes,
    ObjectKey,
    ObjectFormat,
    RowCountZero,
    UncompressedBytesZero,
    SegmentRows,
    DeadLetterCoverage,
}

impl RecoveryLogCorruption {
    pub open spec fn spec_message(self) -> Seq<char> {
        match self {
            RecoveryLogCorruption::NotADirectory => "output recovery path is not a directory"@,
            RecoveryLogCorruption::Magic => "recovery magic is invalid"@,
            RecoveryLogCorruption::Version => "recovery format version is unsupported"@,
            RecoveryLogCorruption::HeaderLength => "recovery header length is invalid"@,
            RecoveryLogCorruption::PayloadLength => "recovery payload length is invalid"@,
            RecoveryLogCorruption::IncompletePrefix => "incomplete recovery tail is not a frame prefix"@,
            RecoveryLogCorruption::IncompleteVersion => "incomplete recovery tail has an unsupported version"@,
            RecoveryLogCorruption::IncompleteFraming => "incomplete recovery tail has invalid framing"@,
            RecoveryLogCorruption::IncompletePayloadLength => "incomplete recovery tail has an invalid payload length"@,
            RecoveryLogCorruption::FramePosition => "recovery frame position overflows"@,
            RecoveryLogCorruption::PayloadDigest => "recovery payload digest does not match"@,
            RecoveryLogCorruption::CommitFooter => "recovery commit footer does not match"@,
            RecoveryLogCorruption::PayloadMetadata => "recovery payload is not canonical metadata"@,
            RecoveryLogCorruption::Identities => "recovery header and payload identities disagree"@,
            RecoveryLogCorruption::Revisions => "recovery revisions are inconsistent"@,
            RecoveryLogCorruption::ObjectIdentityReused => "recovery object identity is reused"@,
            RecoveryLogCorruption::RecordLimit => "output recovery record limit is exceeded"@,
            RecoveryLogCorruption::UuidText => "recovery UUID text is invalid"@,
            RecoveryLogCorruption::RecoveryIdentity => "recovery identity is invalid"@,
            RecoveryLogCorruption::RevisionZero => "recovery revision is zero"@,
            RecoveryLogCorruption::Coverage => "recovery coverage is invalid"@,
            RecoveryLogCorruption::SourceIdentity => "recovery source identity is invalid"@,
            RecoveryLogCorruption::SchemaIdentity => "recovery schema identity is invalid"@,
            RecoveryLogCorruption::InputIdentity => "recovery input identity is invalid"@,
            RecoveryLogCorruption::BatchIdentity => "recovery batch identity is invalid"@,
            RecoveryLogCorruption::SpoolRange => "recovery spool range is invalid"@,
            RecoveryLogCorruption::Positions => "recovery positions are invalid"@,
            RecoveryLogCorruption::EventDay => "recovery event day is invalid"@,
            RecoveryLogCorruption::Timestamp => "recovery timestamp is outside UTC range"@,
            RecoveryLogCorruption::SegmentTimes => "recovery segment times are invalid"@,
            RecoveryLogCorruption::ObjectKey => "recovery object key or media type is inconsistent"@,
            RecoveryLogCorruption::ObjectFormat => "recovery object format is invalid"@,
            RecoveryLogCorruption::RowCountZero => "recovery segment row count is zero"@,
            RecoveryLogCorruption::UncompressedBytesZero => "recovery segment uncompressed byte count is zero"@,
            RecoveryLogCorruption::SegmentRows => "recovery segment row coverage does not match"@,
            RecoveryLogCorruption::DeadLetterCoverage => "recovery dead-letter coverage does not match"@,
        }
    }

    pub fn message(self) -> (r: &'static str)
        ensures
            r@ == self.spec_message(),
    {
        match self {
            RecoveryLogCorruption::NotADirectory => "output recovery path is not a directory",
            RecoveryLogCorruption::Magic => "recovery magic is invalid",
            RecoveryLogCorruption::Version => "recovery format version is unsupported",
            RecoveryLogCorruption::HeaderLength => "recovery header length is invalid",
            RecoveryLogCorruption::PayloadLength => "recovery payload length is invalid",
            RecoveryLogCorruption::IncompletePrefix => "incomplete recovery tail is not a frame prefix",
            RecoveryLogCorruption::IncompleteVersion => "incomplete recovery tail has an unsupported version",
            RecoveryLogCorruption::IncompleteFraming => "incomplete recovery tail has invalid framing",
            RecoveryLogCorruption::IncompletePayloadLength => "incomplete recovery tail has an invalid payload length",
            RecoveryLogCorruption::FramePosition => "recovery frame position overflows",
            RecoveryLogCorruption::PayloadDigest => "recovery payload digest does not match",
            RecoveryLogCorruption::CommitFooter => "recovery commit footer does not match",
            RecoveryLogCorruption::PayloadMetadata => "recovery payload is not canonical metadata",
            RecoveryLogCorruption::Identities => "recovery header and payload identities disagree",
            RecoveryLogCorruption::Revisions => "recovery revisions are inconsistent",
            RecoveryLogCorruption::ObjectIdentityReused => "recovery object identity is reused",
            RecoveryLogCorruption::RecordLimit => "output recovery record limit is exceeded",
            RecoveryLogCorruption::UuidText => "recovery UUID text is invalid",
            RecoveryLogCorruption::RecoveryIdentity => "recovery identity is invalid",
            RecoveryLogCorruption::RevisionZero => "recovery revision is zero",
            RecoveryLogCorruption::Coverage => "recovery coverage is invalid",
            RecoveryLogCorruption::SourceIdentity => "recovery source identity is invalid",
            RecoveryLogCorruption::SchemaIdentity => "recovery schema identity is invalid",
            RecoveryLogCorruption::InputIdentity => "recovery input identity is invalid",
            RecoveryLogCorruption::BatchIdentity => "recovery batch identity is invalid",
            RecoveryLogCorruption::SpoolRange => "recovery spool range is invalid",
            RecoveryLogCorruption::Positions => "recovery positions are invalid",
            RecoveryLogCorruption::EventDay => "recovery event day is invalid",
            RecoveryLogCorruption::Timestamp => "recovery timestamp is outside UTC range",
            RecoveryLogCorruption::SegmentTimes => "recovery segment times are invalid",
            RecoveryLogCorruption::ObjectKey => "recovery object key or media type is inconsistent",
            RecoveryLogCorruption::ObjectFormat => "recovery object format is invalid",
            RecoveryLogCorruption::RowCountZero => "recovery segment row count is zero",
            RecoveryLogCorruption::UncompressedBytesZero => "recovery segment uncompressed byte count is zero",
            RecoveryLogCorruption::SegmentRows => "recovery segment row coverage does not match",
            RecoveryLogCorruption::DeadLetterCoverage => "recovery dead-letter coverage does not match",
        }
    }
}

/// A failure of output recovery. The failures of the operating system are reported by the caller
/// that made the system call.
#[derive(Clone, Copy, Debug, PartialEq, Eq, Structural)]
pub enum OutputRecoveryError {
    Model(OutputRecoveryModelError),
    Corrupt(RecoveryLogCorruption),
    Conflict,
}

/// `ELUCOR01`, with which every record of the log begins.
pub open spec fn recovery_magic() -> Seq<u8> {
    seq![69u8, 76u8, 85u8, 67u8, 79u8, 82u8, 48u8, 49u8]
}

/// `ELUCOC01`, which marks the footer of a record.
pub open spec fn recovery_commit_magic() -> Seq<u8> {
    seq![69u8, 76u8, 85u8, 67u8, 79u8, 67u8, 48u8, 49u8]
}

fn recovery_magic_bytes() -> (r: [u8; 8])
    ensures
        r@ == recovery_magic(),
{
    let bytes: [u8; 8] = [69u8, 76u8, 85u8, 67u8, 79u8, 82u8, 48u8, 49u8];
    assert(bytes@ =~= recovery_magic());
    bytes
}

fn recovery_commit_magic_bytes() -> (r: [u8; 8])
    ensures
        r@ == recovery_commit_magic(),
{
    let bytes: [u8; 8] = [69u8, 76u8, 85u8, 67u8, 79u8, 67u8, 48u8, 49u8];
    assert(bytes@ =~= recovery_commit_magic());
    bytes
}

/// The header of a record.
pub open spec fn recovery_header_bytes(id: u128, revision: u64, payload: Seq<u8>) -> Seq<u8> {
    recovery_magic() + be_bytes(RECOVERY_FORMAT_VERSION as int, 2) + be_bytes(
        RECOVERY_HEADER_BYTES as int,
        2,
    ) + be_bytes(payload.len() as int, 8) + be_bytes(id as int, 16) + be_bytes(revision as int, 8)
        + blake3_digest(payload)@
}

/// The footer of a record with this header and payload.
pub open spec fn recovery_footer_bytes(header: Seq<u8>, payload: Seq<u8>) -> Seq<u8> {
    blake3_digest(header + payload)@ + recovery_commit_magic() + be_bytes(
        payload.len() + RECOVERY_HEADER_BYTES + RECOVERY_FOOTER_BYTES,
        8,
    )
}

/// The whole record.
pub open spec fn recovery_frame_bytes(id: u128, revision: u64, payload: Seq<u8>) -> Seq<u8> {
    let header = recovery_header_bytes(id, revision, payload);
    header + payload + recovery_footer_bytes(header, payload)
}

/// Writes a record around its payload.
pub fn encode_frame(id: OutputRecoveryId, revision: u64, payload: &[u8]) -> (r: Result<
    Vec<u8>,
    OutputRecoveryError,
>)
    ensures
        match r {
            Ok(frame) => payload@.len() <= MAXIMUM_RECOVERY_PAYLOAD_BYTES && frame@
                == recovery_frame_bytes(id.spec_value(), revision, payload@),
            Err(e) => payload@.len() > MAXIMUM_RECOVERY_PAYLOAD_BYTES && e
                == OutputRecoveryError::Conflict,
        },
{
    broadcast use lemma_be_bytes_len;

    let payload_bytes: u64 = payload.len() as u64;
    if payload_bytes > MAXIMUM_RECOVERY_PAYLOAD_BYTES {
        return Err(OutputRecoveryError::Conflict);
    }
    let payload_digest: [u8; 32] = digest(payload);
    let mut frame: Vec<u8> = Vec::new();
    push_bytes(&mut frame, &recovery_magic_bytes());
    push_be(&mut frame, RECOVERY_FORMAT_VERSION as u128, 2);
    push_be(&mut frame, RECOVERY_HEADER_BYTES as u128, 2);
    push_be(&mut frame, payload_bytes as u128, 8);
    push_be(&mut frame, id.as_u128(), 16);
    push_be(&mut frame, revision as u128, 8);
    push_bytes(&mut frame, &payload_digest);
    let ghost header = frame@;
    assert(header =~= recovery_header_bytes(id.spec_value(), revision, payload@));
    let frame_digest: [u8; 32] = digest_of_pair(frame.as_slice(), payload);
    let frame_bytes: u64 = payload_bytes + 124;
    push_bytes(&mut frame, payload);
    push_bytes(&mut frame, &frame_digest);
    push_bytes(&mut frame, &recovery_commit_magic_bytes());
    push_be(&mut frame, frame_bytes as u128, 8);
    assert(frame@ =~= header + payload@ + recovery_footer_bytes(header, payload@));
    Ok(frame)
}

/// A header that was read back.
#[derive(Clone, Copy, Debug, PartialEq, Eq)]
pub struct DecodedRecoveryHeader {
    pub payload_bytes: u64,
    pub recovery_id: u128,
    pub revision: u64,
    pub payload_digest: [u8; 32],
}

/// The first thing that keeps `header` from being the header of a record.
#[verifier::opaque]
pub open spec fn recovery_header_fault(header: Seq<u8>) -> Option<RecoveryLogCorruption> {
    if header.subrange(0, 8) != recovery_magic() {
        Some(RecoveryLogCorruption::Magic)
    } else if be_value(header.subrange(8, 10)) != RECOVERY_FORMAT_VERSION {
        Some(RecoveryLogCorruption::Version)
    } else if be_value(header.subrange(10, 12)) != RECOVERY_HEADER_BYTES {
        Some(RecoveryLogCorruption::HeaderLength)
    } else if !(0 < be_value(header.subrange(12, 20)) <= MAXIMUM_RECOVERY_PAYLOAD_BYTES) {
        Some(RecoveryLogCorruption::PayloadLength)
    } else {
        None
    }
}

impl DecodedRecoveryHeader {
    /// Whether this is what `header` spells.
    pub open spec fn describes(self, header: Seq<u8>) -> bool {
        &&& header.len() == RECOVERY_HEADER_BYTES
        &&& self.payload_bytes == be_value(header.subrange(12, 20))
        &&& 0 < self.payload_bytes <= MAXIMUM_RECOVERY_PAYLOAD_BYTES
        &&& self.recovery_id == be_value(header.subrange(20, 36))
        &&& self.revision == be_value(header.subrange(36, 44))
        &&& self.payload_digest@ == header.subrange(44, 76)
    }

    /// The length of the whole record.
    pub open spec fn frame_bytes(self) -> int {
        self.payload_bytes + RECOVERY_HEADER_BYTES + RECOVERY_FOOTER_BYTES
    }
}

/// Reads 32 bytes.
fn read_digest(bytes: &[u8], start: usize) -> (r: [u8; 32])
    requires
        start + 32 <= bytes@.len(),
    ensures
        r@ == bytes@.subrange(start as int, start + 32),
{
    let available: usize = bytes.len();
    let mut copy: [u8; 32] = [0u8; 32];
    let mut index: usize = 0;
    while index < 32
        invariant
            index <= 32,
            start + 32 <= bytes@.len() == available,
            forall|i: int| 0 <= i < index ==> copy@[i] == bytes@[start + i],
        decreases 32 - index,
    {
        copy[index] = bytes[start + index];
        index = index + 1;
    }
    assert(copy@ =~= bytes@.subrange(start as int, start + 32));
    copy
}

/// Reads a header back.
pub fn decode_recovery_header(header: &[u8]) -> (r: Result<
    DecodedRecoveryHeader,
    OutputRecoveryError,
>)
    requires
        header@.len() == RECOVERY_HEADER_BYTES,
    ensures
        match r {
            Ok(decoded) => recovery_header_fault(header@) is None && decoded.describes(header@),
            Err(e) => recovery_header_fault(header@) matches Some(fault) && e
                == OutputRecoveryError::Corrupt(fault),
        },
{
    proof {
        reveal(recovery_header_fault);
        lemma_be_limits();
    }
    if !matches_at(header, 0, &recovery_magic_bytes()) {
        return Err(OutputRecoveryError::Corrupt(RecoveryLogCorruption::Magic));
    }
    if read_be(header, 8, 10) != RECOVERY_FORMAT_VERSION as u128 {
        return Err(OutputRecoveryError::Corrupt(RecoveryLogCorruption::Version));
    }
    if read_be(header, 10, 12) != RECOVERY_HEADER_BYTES as u128 {
        return Err(OutputRecoveryError::Corrupt(RecoveryLogCorruption::HeaderLength));
    }
    let payload_bytes: u64 = read_be(header, 12, 20) as u64;
    if payload_bytes == 0 || payload_bytes > MAXIMUM_RECOVERY_PAYLOAD_BYTES {
        return Err(OutputRecoveryError::Corrupt(RecoveryLogCorruption::PayloadLength));
    }
    Ok(
        DecodedRecoveryHeader {
            payload_bytes,
            recovery_id: read_be(header, 20, 36),
            revision: read_be(header, 36, 44) as u64,
            payload_digest: read_digest(header, 44),
        },
    )
}

/// The first thing that keeps `prefix`, which is shorter than a header, from being the beginning
/// of one.
#[verifier::opaque]
pub open spec fn recovery_prefix_fault(prefix: Seq<u8>) -> Option<RecoveryLogCorruption> {
    let magic_bytes: int = if prefix.len() < 8 {
        prefix.len() as int
    } else {
        8
    };
    if prefix.subrange(0, magic_bytes) != recovery_magic().subrange(0, magic_bytes) {
        Some(RecoveryLogCorruption::IncompletePrefix)
    } else if prefix.len() >= 10 && be_value(prefix.subrange(8, 10)) != RECOVERY_FORMAT_VERSION {
        Some(RecoveryLogCorruption::IncompleteVersion)
    } else if prefix.len() >= 12 && be_value(prefix.subrange(10, 12)) != RECOVERY_HEADER_BYTES {
        Some(RecoveryLogCorruption::IncompleteFraming)
    } else if prefix.len() >= 20 && !(0 < be_value(prefix.subrange(12, 20))
        <= MAXIMUM_RECOVERY_PAYLOAD_BYTES) {
        Some(RecoveryLogCorruption::IncompletePayloadLength)
    } else {
        None
    }
}

/// Tests whether fewer bytes than a header holds can be the beginning of one.
pub fn validate_incomplete_header(prefix: &[u8]) -> (r: Result<(), OutputRecoveryError>)
    requires
        prefix@.len() < RECOVERY_HEADER_BYTES,
    ensures
        match r {
            Ok(_) => recovery_prefix_fault(prefix@) is None,
            Err(e) => recovery_prefix_fault(prefix@) matches Some(fault) && e
                == OutputRecoveryError::Corrupt(fault),
        },
{
    proof {
        reveal(recovery_prefix_fault);
        lemma_be_limits();
    }
    let magic: [u8; 8] = recovery_magic_bytes();
    let magic_bytes: usize = if prefix.len() < 8 {
        prefix.len()
    } else {
        8
    };
    if !matches_at(prefix, 0, vstd::slice::slice_subrange(&magic, 0, magic_bytes)) {
        return Err(OutputRecoveryError::Corrupt(RecoveryLogCorruption::IncompletePrefix));
    }
    if prefix.len() >= 10 && read_be(prefix, 8, 10) != RECOVERY_FORMAT_VERSION as u128 {
        return Err(OutputRecoveryError::Corrupt(RecoveryLogCorruption::IncompleteVersion));
    }
    if prefix.len() >= 12 && read_be(prefix, 10, 12) != RECOVERY_HEADER_BYTES as u128 {
        return Err(OutputRecoveryError::Corrupt(RecoveryLogCorruption::IncompleteFraming));
    }
    if prefix.len() >= 20 {
        let payload_bytes: u128 = read_be(prefix, 12, 20);
        if payload_bytes == 0 || payload_bytes > MAXIMUM_RECOVERY_PAYLOAD_BYTES as u128 {
            return Err(
                OutputRecoveryError::Corrupt(RecoveryLogCorruption::IncompletePayloadLength),
            );
        }
    }
    Ok(())
}

/// Whether the bytes behind a header are not the payload and the footer that it announces.
pub open spec fn recovery_frame_fault(
    header: Seq<u8>,
    payload: Seq<u8>,
    footer: Seq<u8>,
) -> Option<RecoveryLogCorruption> {
    if blake3_digest(payload)@ != header.subrange(44, 76) {
        Some(RecoveryLogCorruption::PayloadDigest)
    } else if footer != recovery_footer_bytes(header, payload) {
        Some(RecoveryLogCorruption::CommitFooter)
    } else {
        None
    }
}

/// Tests the payload and the footer of a record against its header.
pub fn validate_recovery_frame(header: &[u8], payload: &[u8], footer: &[u8]) -> (r: Result<
    (),
    OutputRecoveryError,
>)
    requires
        header@.len() == RECOVERY_HEADER_BYTES,
        payload@.len() <= MAXIMUM_RECOVERY_PAYLOAD_BYTES,
        footer@.len() == RECOVERY_FOOTER_BYTES,
    ensures
        match r {
            Ok(_) => recovery_frame_fault(header@, payload@, footer@) is None,
            Err(e) => recovery_frame_fault(header@, payload@, footer@) matches Some(fault) && e
                == OutputRecoveryError::Corrupt(fault),
        },
{
    broadcast use lemma_be_bytes_len;

    if !matches_at(header, 44, &digest(payload)) {
        return Err(OutputRecoveryError::Corrupt(RecoveryLogCorruption::PayloadDigest));
    }
    let frame_bytes: u64 = payload.len() as u64 + 124;
    let frame_digest: [u8; 32] = digest_of_pair(header, payload);
    let mut expected: Vec<u8> = Vec::new();
    push_bytes(&mut expected, &frame_digest);
    push_bytes(&mut expected, &recovery_commit_magic_bytes());
    push_be(&mut expected, frame_bytes as u128, 8);
    assert(expected@ =~= recovery_footer_bytes(header@, payload@));
    let matching: bool = matches_at(footer, 0, expected.as_slice());
    assert(footer@.subrange(0, 48) =~= footer@);
    if matching {
        Ok(())
    } else {
        Err(OutputRecoveryError::Corrupt(RecoveryLogCorruption::CommitFooter))
    }
}

/// A record that was written is accepted when it is read back, with its identity, its revision and
/// its payload.
pub proof fn recovery_frame_reads_back(id: u128, revision: u64, payload: Seq<u8>)
    requires
        0 < payload.len() <= MAXIMUM_RECOVERY_PAYLOAD_BYTES,
    ensures
        ({
            let header = recovery_header_bytes(id, revision, payload);
            &&& header.len() == RECOVERY_HEADER_BYTES
            &&& recovery_header_fault(header) is None
            &&& be_value(header.subrange(12, 20)) == payload.len()
            &&& be_value(header.subrange(20, 36)) == id
            &&& be_value(header.subrange(36, 44)) == revision
            &&& recovery_frame_fault(header, payload, recovery_footer_bytes(header, payload))
                is None
        }),
{
    broadcast use lemma_be_bytes_len;

    reveal(recovery_header_fault);
    let header = recovery_header_bytes(id, revision, payload);
    lemma_be_limits();
    assert(header.subrange(0, 8) =~= recovery_magic());
    assert(header.subrange(8, 10) =~= be_bytes(RECOVERY_FORMAT_VERSION as int, 2));
    assert(header.subrange(10, 12) =~= be_bytes(RECOVERY_HEADER_BYTES as int, 2));
    assert(header.subrange(12, 20) =~= be_bytes(payload.len() as int, 8));
    assert(header.subrange(20, 36) =~= be_bytes(id as int, 16));
    assert(header.subrange(36, 44) =~= be_bytes(revision as int, 8));
    assert(header.subrange(44, 76) =~= blake3_digest(payload)@);
    lemma_be_value_of_be_bytes(RECOVERY_FORMAT_VERSION as int, 2);
    lemma_be_value_of_be_bytes(RECOVERY_HEADER_BYTES as int, 2);
    lemma_be_value_of_be_bytes(payload.len() as int, 8);
    lemma_be_value_of_be_bytes(id as int, 16);
    lemma_be_value_of_be_bytes(revision as int, 8);
}

/// The beginning of a record's header, however short, is accepted as an incomplete one.
pub proof fn recovery_prefix_is_accepted(id: u128, revision: u64, payload: Seq<u8>, length: int)
    requires
        0 < payload.len() <= MAXIMUM_RECOVERY_PAYLOAD_BYTES,
        0 <= length < RECOVERY_HEADER_BYTES,
    ensures
        recovery_prefix_fault(recovery_header_bytes(id, revision, payload).subrange(0, length))
            is None,
{
    reveal(recovery_header_fault);
    reveal(recovery_prefix_fault);
    let header = recovery_header_bytes(id, revision, payload);
    let prefix = header.subrange(0, length);
    recovery_frame_reads_back(id, revision, payload);
    let magic_bytes: int = if length < 8 {
        length
    } else {
        8
    };
    assert(prefix.subrange(0, magic_bytes) =~= header.subrange(0, 8).subrange(0, magic_bytes));
    if length >= 10 {
        assert(prefix.subrange(8, 10) =~= header.subrange(8, 10));
    }
    if length >= 12 {
        assert(prefix.subrange(10, 12) =~= header.subrange(10, 12));
    }
    if length >= 20 {
        assert(prefix.subrange(12, 20) =~= header.subrange(12, 20));
    }
}

/// Whether `next` may follow what is recorded under its identity.
pub open spec fn transition_allowed(current: Option<RecordView>, next: RecordView) -> bool {
    match current {
        None => next.revision == 1,
        Some(current) => {
            &&& current.coverage == next.coverage
            &&& (current.output is Segment) == (next.output is Segment)
            &&& current.revision + 1 == next.revision
        },
    }
}

/// Tests whether `next` may follow the current record.
pub fn validate_transition(
    current: Option<&OutputRecoveryRecord>,
    next: &OutputRecoveryRecord,
) -> (r: Result<(), OutputRecoveryError>)
    ensures
        r == if transition_allowed(
            match current {
                Some(record) => Some(record@),
                None => None,
            },
            next@,
        ) {
            Ok::<(), OutputRecoveryError>(())
        } else {
            Err::<(), OutputRecoveryError>(OutputRecoveryError::Conflict)
        },
{
    match current {
        None => {
            if next.revision != 1 {
                return Err(OutputRecoveryError::Conflict);
            }
            Ok(())
        },
        Some(current) => {
            let same_kind: bool = match (&current.output, &next.output) {
                (RecoveryOutput::Segment(_), RecoveryOutput::Segment(_)) => true,
                (RecoveryOutput::DeadLetter(_), RecoveryOutput::DeadLetter(_)) => true,
                _ => false,
            };
            let successor: bool = match current.revision.checked_add(1) {
                Some(revision) => revision == next.revision,
                None => false,
            };
            if !same_kind || !successor || !same_coverage(&current.coverage, &next.coverage) {
                return Err(OutputRecoveryError::Conflict);
            }
            Ok(())
        },
    }
}

/// Tests whether an output lies where its owner's outputs are stored.
pub fn validate_record_key(record: &OutputRecoveryRecord, expected: &ManagedObjectKey) -> (r:
    Result<(), OutputRecoveryError>)
    ensures
        r == if record@.output.object().key == expected.text@
            && record@.output.object().object_id == expected.object_id {
            Ok::<(), OutputRecoveryError>(())
        } else {
            Err::<(), OutputRecoveryError>(OutputRecoveryError::Conflict)
        },
{
    let key: &ManagedObjectKey = &record.output.object().key;
    if key.text == expected.text && key.object_id == expected.object_id {
        Ok(())
    } else {
        Err(OutputRecoveryError::Conflict)
    }
}

/// The latest record of each output, in the order of their identities.
#[derive(Debug)]
pub struct OutputRecoveryRecords {
    pub(crate) records: Vec<OutputRecoveryRecord>,
}

/// Whether records stand in the order of their identities, none of which occurs twice.
pub open(crate) spec fn ordered_records(records: Seq<OutputRecoveryRecord>) -> bool {
    forall|i: int, j: int|
        #![trigger records[i], records[j]]
        0 <= i < j < records.len() ==> records[i].id.value < records[j].id.value
}

/// Whether a record stands under this identity.
pub open spec fn records_hold(records: Seq<OutputRecoveryRecord>, id: OutputRecoveryId) -> bool {
    exists|i: int| 0 <= i < records.len() && (#[trigger] records[i]).id == id
}

/// The identities under which records stand.
spec fn recorded_identities(records: Seq<OutputRecoveryRecord>) -> Set<OutputRecoveryId> {
    Set::new(|id: OutputRecoveryId| records_hold(records, id))
}

/// The record that stands under an identity.
pub open spec fn record_under(
    records: Seq<OutputRecoveryRecord>,
    id: OutputRecoveryId,
) -> RecordView {
    records[choose|i: int| 0 <= i < records.len() && (#[trigger] records[i]).id == id]@
}

impl View for OutputRecoveryRecords {
    type V = Map<OutputRecoveryId, RecordView>;

    open(crate) spec fn view(&self) -> Map<OutputRecoveryId, RecordView> {
        Map::new(
            |id: OutputRecoveryId| records_hold(self.records@, id),
            |id: OutputRecoveryId| record_under(self.records@, id),
        )
    }
}

/// Whether another output is stored in the object of `next`.
pub open spec fn object_in_use(
    records: Map<OutputRecoveryId, RecordView>,
    next: RecordView,
) -> bool {
    exists|id: OutputRecoveryId| #[trigger]
        records.contains_key(id) && id != next.id && records[id].output.object().object_id
            == next.output.object().object_id
}

/// Whether an output may be recorded.
pub open spec fn recordable(
    records: Map<OutputRecoveryId, RecordView>,
    next: RecordView,
) -> bool {
    &&& transition_allowed(
        if records.contains_key(next.id) {
            Some(records[next.id])
        } else {
            None
        },
        next,
    )
    &&& !object_in_use(records, next)
}

/// The outcome of reading a record back from the log behind the records before it.
pub open spec fn recovered(
    records: Map<OutputRecoveryId, RecordView>,
    next: RecordView,
) -> Result<(), OutputRecoveryError> {
    let current = if records.contains_key(next.id) {
        Some(records[next.id])
    } else {
        None
    };
    if !transition_allowed(current, next) {
        Err(OutputRecoveryError::Corrupt(RecoveryLogCorruption::Revisions))
    } else if object_in_use(records, next) {
        Err(OutputRecoveryError::Corrupt(RecoveryLogCorruption::ObjectIdentityReused))
    } else if records.insert(next.id, next).dom().len() > MAXIMUM_RECOVERY_RECORDS {
        Err(OutputRecoveryError::Corrupt(RecoveryLogCorruption::RecordLimit))
    } else {
        Ok(())
    }
}

/// The outcome of reading back a record that stands under this identity and revision in the log.
pub open spec fn accepted(
    records: Map<OutputRecoveryId, RecordView>,
    recovery_id: u128,
    revision: u64,
    next: RecordView,
) -> Result<(), OutputRecoveryError> {
    if next.id.spec_value() != recovery_id || next.revision != revision {
        Err(OutputRecoveryError::Corrupt(RecoveryLogCorruption::Identities))
    } else {
        recovered(records, next)
    }
}

/// What removing all records is answered.
pub open spec fn reclaiming(
    records: Map<OutputRecoveryId, RecordView>,
    reclamation: SpoolReclamation,
) -> Result<OutputRecoveryReclamation, OutputRecoveryError> {
    match reclamation {
        SpoolReclamation::Deferred => Ok(OutputRecoveryReclamation::Deferred),
        SpoolReclamation::Reclaimed { bytes } => if covered_by(records, bytes) {
            Ok(OutputRecoveryReclamation::Reclaimed { records: records.dom().len() as usize })
        } else {
            Err(OutputRecoveryError::Conflict)
        },
    }
}

/// Whether every recorded occurrence lies before `bytes`.
pub open spec fn covered_by(records: Map<OutputRecoveryId, RecordView>, bytes: u64) -> bool {
    forall|id: OutputRecoveryId, j: int|
        #![trigger records[id].coverage[j]]
        records.contains_key(id) && 0 <= j < records[id].coverage.len()
            ==> records[id].coverage[j].spool_range.spec_end().position <= bytes
}

impl OutputRecoveryRecords {
    #[verifier::type_invariant]
    pub(crate) open(crate) spec fn valid(self) -> bool {
        ordered_records(self.records@)
    }

    proof fn lemma_record_under(records: Seq<OutputRecoveryRecord>, index: int)
        requires
            ordered_records(records),
            0 <= index < records.len(),
        ensures
            records_hold(records, records[index].id),
            record_under(records, records[index].id) == records[index]@,
    {
        let id = records[index].id;
        let found = choose|i: int| 0 <= i < records.len() && (#[trigger] records[i]).id == id;
        assert(records[index].id == id);
        assert(found == index) by {
            if found < index {
                assert(records[found].id.value < records[index].id.value);
            } else if found > index {
                assert(records[index].id.value < records[found].id.value);
            }
        }
    }

    proof fn lemma_record_count(records: Seq<OutputRecoveryRecord>)
        requires
            ordered_records(records),
        ensures
            recorded_identities(records).finite(),
            recorded_identities(records).len() == records.len(),
        decreases records.len(),
    {
        if records.len() == 0 {
            assert(recorded_identities(records) =~= Set::<OutputRecoveryId>::empty());
        } else {
            let front = records.drop_last();
            let last = records.last().id;
            OutputRecoveryRecords::lemma_record_count(front);
            assert forall|id: OutputRecoveryId|
                records_hold(records, id) == (#[trigger] records_hold(front, id) || id == last) by {
                if records_hold(records, id) {
                    let i = choose|i: int|
                        0 <= i < records.len() && (#[trigger] records[i]).id == id;
                    if i < front.len() {
                        assert(front[i].id == id);
                    }
                }
                if records_hold(front, id) {
                    let i = choose|i: int| 0 <= i < front.len() && (#[trigger] front[i]).id == id;
                    assert(records[i].id == id);
                }
                assert(records[records.len() - 1].id == last);
            }
            assert(!records_hold(front, last)) by {
                if records_hold(front, last) {
                    let i = choose|i: int| 0 <= i < front.len() && (#[trigger] front[i]).id == last;
                    assert(records[i].id.value < records[records.len() - 1].id.value);
                }
            }
            assert(recorded_identities(records) =~= recorded_identities(front).insert(last));
        }
    }

    /// No records.
    pub fn new() -> (r: Self)
        ensures
            r@ == Map::<OutputRecoveryId, RecordView>::empty(),
    {
        let records: Vec<OutputRecoveryRecord> = Vec::new();
        let r: Self = OutputRecoveryRecords { records };
        assert(r@ =~= Map::<OutputRecoveryId, RecordView>::empty());
        r
    }

    /// Where the record with this identity stands, or would stand.
    fn place(&self, id: OutputRecoveryId) -> (r: usize)
        ensures
            r <= self.records@.len(),
            forall|i: int| 0 <= i < r ==> (#[trigger] self.records@[i]).id.value < id.value,
            forall|i: int|
                r <= i < self.records@.len() ==> (#[trigger] self.records@[i]).id.value >= id.value,
    {
        proof {
            use_type_invariant(self);
        }
        let mut low: usize = 0;
        let mut high: usize = self.records.len();
        while low < high
            invariant
                low <= high <= self.records@.len(),
                ordered_records(self.records@),
                forall|i: int| 0 <= i < low ==> (#[trigger] self.records@[i]).id.value < id.value,
                forall|i: int|
                    high <= i < self.records@.len() ==> (#[trigger] self.records@[i]).id.value
                        >= id.value,
            decreases high - low,
        {
            let middle: usize = low + (high - low) / 2;
            if self.records[middle].id.value < id.value {
                low = middle + 1;
            } else {
                high = middle;
            }
        }
        low
    }

    /// The record with this identity.
    pub fn get(&self, id: OutputRecoveryId) -> (r: Option<&OutputRecoveryRecord>)
        ensures
            match r {
                Some(record) => self@.contains_key(id) && self@[id] == record@ && record.id == id,
                None => !self@.contains_key(id),
            },
    {
        proof {
            use_type_invariant(self);
        }
        let at: usize = self.place(id);
        if at < self.records.len() && self.records[at].id == id {
            proof {
                OutputRecoveryRecords::lemma_record_under(self.records@, at as int);
            }
            Some(&self.records[at])
        } else {
            proof {
                if records_hold(self.records@, id) {
                    let i = choose|i: int|
                        0 <= i < self.records@.len() && (#[trigger] self.records@[i]).id == id;
                    assert(i >= at);
                    assert(at < self.records@.len());
                    if at < i {
                        assert(self.records@[at as int].id.value < self.records@[i].id.value);
                    }
                }
            }
            None
        }
    }

    /// All records, in the order of their identities.
    pub fn records(&self) -> (r: &[OutputRecoveryRecord])
        ensures
            forall|i: int, j: int|
                #![trigger r@[i], r@[j]]
                0 <= i < j < r@.len() ==> r@[i].id.spec_value() < r@[j].id.spec_value(),
            forall|i: int|
                0 <= i < r@.len() ==> self@.contains_key((#[trigger] r@[i]).id)
                    && self@[r@[i].id] == r@[i]@,
            forall|id: OutputRecoveryId| #[trigger]
                self@.contains_key(id) ==> records_hold(r@, id),
    {
        proof {
            use_type_invariant(self);
            assert forall|i: int| 0 <= i < self.records@.len() implies self@.contains_key(
                (#[trigger] self.records@[i]).id,
            ) && self@[self.records@[i].id] == self.records@[i]@ by {
                OutputRecoveryRecords::lemma_record_under(self.records@, i);
            }
        }
        self.records.as_slice()
    }

    /// Whether another output is stored in the object of `next`.
    fn uses_object(&self, next: &OutputRecoveryRecord) -> (r: bool)
        ensures
            r == object_in_use(self@, next@),
    {
        proof {
            use_type_invariant(self);
        }
        let mut index: usize = 0;
        while index < self.records.len()
            invariant
                index <= self.records@.len(),
                ordered_records(self.records@),
                forall|i: int|
                    0 <= i < index ==> (#[trigger] self.records@[i]).id == next.id
                        || self.records@[i]@.output.object().object_id
                        != next@.output.object().object_id,
            decreases self.records@.len() - index,
        {
            if self.records[index].id != next.id && self.records[index].object_identity()
                == next.object_identity() {
                proof {
                    OutputRecoveryRecords::lemma_record_under(self.records@, index as int);
                    assert(self@.contains_key(self.records@[index as int].id));
                }
                return true;
            }
            index = index + 1;
        }
        proof {
            if object_in_use(self@, next@) {
                let id = choose|id: OutputRecoveryId| #[trigger]
                    self@.contains_key(id) && id != next@.id
                        && self@[id].output.object().object_id == next@.output.object().object_id;
                let i = choose|i: int|
                    0 <= i < self.records@.len() && (#[trigger] self.records@[i]).id == id;
                OutputRecoveryRecords::lemma_record_under(self.records@, i);
            }
        }
        false
    }

    /// Whether an output that is stored under `expected` may be recorded, or is recorded already.
    pub fn check_record(&self, record: &OutputRecoveryRecord, expected: &ManagedObjectKey) -> (r:
        Result<OutputRecoveryRecordOutcome, OutputRecoveryError>)
        ensures
            r == if record@.output.object().key != expected.text@
                || record@.output.object().object_id != expected.object_id {
                Err::<OutputRecoveryRecordOutcome, OutputRecoveryError>(
                    OutputRecoveryError::Conflict,
                )
            } else if self@.contains_key(record.id) && self@[record.id] == record@ {
                Ok::<OutputRecoveryRecordOutcome, OutputRecoveryError>(
                    OutputRecoveryRecordOutcome::AlreadyRecorded,
                )
            } else if recordable(self@, record@) {
                Ok::<OutputRecoveryRecordOutcome, OutputRecoveryError>(
                    OutputRecoveryRecordOutcome::Recorded,
                )
            } else {
                Err::<OutputRecoveryRecordOutcome, OutputRecoveryError>(
                    OutputRecoveryError::Conflict,
                )
            },
    {
        match validate_record_key(record, expected) {
            Ok(_) => {},
            Err(e) => {
                return Err(e);
            },
        }
        let current: Option<&OutputRecoveryRecord> = self.get(record.id);
        match current {
            Some(present) => {
                if present.same_as(record) {
                    return Ok(OutputRecoveryRecordOutcome::AlreadyRecorded);
                }
            },
            None => {},
        }
        match validate_transition(current, record) {
            Ok(_) => {},
            Err(e) => {
                return Err(e);
            },
        }
        if self.uses_object(record) {
            return Err(OutputRecoveryError::Conflict);
        }
        Ok(OutputRecoveryRecordOutcome::Recorded)
    }

    /// Records an output.
    pub fn install(&mut self, record: OutputRecoveryRecord)
        ensures
            final(self)@ == old(self)@.insert(record.id, record@),
    {
        proof {
            use_type_invariant(&*self);
        }
        let ghost before = self.records@;
        let ghost view = record@;
        let at: usize = self.place(record.id);
        let id: OutputRecoveryId = record.id;
        let present: bool = at < self.records.len() && self.records[at].id == id;
        let mut records: Vec<OutputRecoveryRecord> = Vec::new();
        std::mem::swap(&mut records, &mut self.records);
        if present {
            records[at] = record;
        } else {
            proof {
                if at < before.len() {
                    assert(before[at as int].id.value != id.value);
                }
            }
            records.insert(at, record);
        }
        let ghost after = records@;
        proof {
            assert(ordered_records(after)) by {
                assert forall|i: int, j: int|
                    #![trigger after[i], after[j]]
                    0 <= i < j < after.len() implies after[i].id.value < after[j].id.value by {
                    if present {
                        assert(after[i].id == before[i].id);
                        assert(after[j].id == before[j].id);
                    } else {
                        if j < at {
                            assert(after[j] == before[j]);
                        } else if j > at {
                            assert(after[j] == before[j - 1]);
                        }
                        if i < at {
                            assert(after[i] == before[i]);
                        } else if i > at {
                            assert(after[i] == before[i - 1]);
                        }
                    }
                }
            }
        }
        self.records = records;
        proof {
            let expected = old(self)@.insert(id, view);
            assert(after[at as int]@ == view && after[at as int].id == id);
            OutputRecoveryRecords::lemma_record_under(after, at as int);
            assert forall|other: OutputRecoveryId| other != id implies records_hold(after, other)
                == #[trigger] records_hold(before, other) && (records_hold(before, other)
                ==> record_under(after, other) == record_under(before, other)) by {
                if records_hold(after, other) {
                    let i = choose|i: int| 0 <= i < after.len() && (#[trigger] after[i]).id == other;
                    let k = if present || i < at {
                        i
                    } else {
                        i - 1
                    };
                    assert(before[k] == after[i]);
                    OutputRecoveryRecords::lemma_record_under(after, i);
                    OutputRecoveryRecords::lemma_record_under(before, k);
                }
                if records_hold(before, other) {
                    let k = choose|k: int|
                        0 <= k < before.len() && (#[trigger] before[k]).id == other;
                    let i = if present || k < at {
                        k
                    } else {
                        k + 1
                    };
                    assert(before[k] == after[i]);
                    OutputRecoveryRecords::lemma_record_under(after, i);
                    OutputRecoveryRecords::lemma_record_under(before, k);
                }
            }
            assert forall|other: OutputRecoveryId| #[trigger]
                self@.dom().contains(other) == expected.dom().contains(other) by {
                if other != id {
                    assert(records_hold(before, other) == records_hold(after, other));
                }
            }
            assert(self@.dom() =~= expected.dom());
            assert forall|other: OutputRecoveryId| #[trigger]
                self@.dom().contains(other) implies self@[other] == expected[other] by {
                if other != id {
                    assert(records_hold(before, other));
                }
            }
            assert(self@ =~= expected);
        }
    }

    /// Takes a record that was read back from the log.
    pub fn recover(&mut self, record: OutputRecoveryRecord) -> (r: Result<(), OutputRecoveryError>)
        ensures
            r == recovered(old(self)@, record@),
            r is Ok ==> final(self)@ == old(self)@.insert(record.id, record@),
    {
        let allowed: bool = validate_transition(self.get(record.id), &record).is_ok();
        if !allowed {
            return Err(OutputRecoveryError::Corrupt(RecoveryLogCorruption::Revisions));
        }
        if self.uses_object(&record) {
            return Err(OutputRecoveryError::Corrupt(RecoveryLogCorruption::ObjectIdentityReused));
        }
        self.install(record);
        if self.len() > MAXIMUM_RECOVERY_RECORDS {
            return Err(OutputRecoveryError::Corrupt(RecoveryLogCorruption::RecordLimit));
        }
        Ok(())
    }

    /// How many outputs are recorded.
    pub fn len(&self) -> (r: usize)
        ensures
            r == self@.dom().len(),
    {
        proof {
            use_type_invariant(self);
            OutputRecoveryRecords::lemma_record_count(self.records@);
            assert(self@.dom() =~= recorded_identities(self.records@));
        }
        self.records.len()
    }

    /// Tests whether all records can be removed: whether the spool has reclaimed the data that they
    /// cover.
    pub fn check_reclaim(&self, reclamation: SpoolReclamation) -> (r: Result<
        OutputRecoveryReclamation,
        OutputRecoveryError,
    >)
        ensures
            r == reclaiming(self@, reclamation),
    {
        let bytes: u64 = match reclamation.reclaimed_bytes() {
            Some(bytes) => bytes,
            None => {
                return Ok(OutputRecoveryReclamation::Deferred);
            },
        };
        proof {
            use_type_invariant(self);
        }
        let mut index: usize = 0;
        while index < self.records.len()
            invariant
                index <= self.records@.len(),
                ordered_records(self.records@),
                reclamation == (SpoolReclamation::Reclaimed { bytes }),
                forall|i: int, j: int|
                    #![trigger self.records@[i].coverage@[j]]
                    0 <= i < index && 0 <= j < self.records@[i].coverage@.len()
                        ==> self.records@[i].coverage@[j]@.spool_range.spec_end().position <= bytes,
            decreases self.records@.len() - index,
        {
            let coverage: &Vec<BatchPositionCoverage> = &self.records[index].coverage;
            let mut item: usize = 0;
            while item < coverage.len()
                invariant
                    item <= coverage@.len(),
                    index < self.records@.len(),
                        ordered_records(self.records@),
                    reclamation == (SpoolReclamation::Reclaimed { bytes }),
                    *coverage == self.records@[index as int].coverage,
                    forall|j: int|
                        0 <= j < item ==> (#[trigger] coverage@[j])@.spool_range.spec_end().position
                            <= bytes,
                decreases coverage@.len() - item,
            {
                if coverage[item].spool_range().end().position() > bytes {
                    proof {
                        OutputRecoveryRecords::lemma_record_under(self.records@, index as int);
                        let id = self.records@[index as int].id;
                        assert(self@.contains_key(id));
                        assert(self@[id].coverage[item as int].spool_range.spec_end().position
                            > bytes);
                    }
                    return Err(OutputRecoveryError::Conflict);
                }
                item = item + 1;
            }
            index = index + 1;
        }
        proof {
            assert forall|id: OutputRecoveryId, j: int|
                #![trigger self@[id].coverage[j]]
                self@.contains_key(id) && 0 <= j
                    < self@[id].coverage.len() implies self@[id].coverage[j].spool_range.spec_end().position
                <= bytes by {
                let i = choose|i: int|
                    0 <= i < self.records@.len() && (#[trigger] self.records@[i]).id == id;
                OutputRecoveryRecords::lemma_record_under(self.records@, i);
                assert(self.records@[i].coverage@[j]@.spool_range.spec_end().position <= bytes);
            }
        }
        Ok(OutputRecoveryReclamation::Reclaimed { records: self.len() })
    }

    /// Removes all records.
    pub fn clear(&mut self)
        ensures
            final(self)@ == Map::<OutputRecoveryId, RecordView>::empty(),
    {
        *self = OutputRecoveryRecords::new();
    }

    /// Removes all records once the spool has reclaimed the data that they cover.
    pub fn reclaim(&mut self, reclamation: SpoolReclamation) -> (r: Result<
        OutputRecoveryReclamation,
        OutputRecoveryError,
    >)
        ensures
            r == reclaiming(old(self)@, reclamation),
            final(self)@ == if r matches Ok(OutputRecoveryReclamation::Reclaimed { .. }) {
                Map::<OutputRecoveryId, RecordView>::empty()
            } else {
                old(self)@
            },
    {
        let outcome: Result<OutputRecoveryReclamation, OutputRecoveryError> = self.check_reclaim(
            reclamation,
        );
        if let Ok(OutputRecoveryReclamation::Reclaimed { .. }) = outcome {
            self.clear();
        }
        outcome
    }
}

/// What a scan of the log waits for.
#[derive(Debug)]
pub enum LogScanPhase {
    /// The header of the next record.
    Header,
    /// The payload and the footer behind a header.
    Frame { header: Vec<u8>, decoded: DecodedRecoveryHeader },
    /// The record that a payload spells.
    Record { decoded: DecodedRecoveryHeader },
    /// Nothing: the log ends in an incomplete record.
    Finished,
}

/// A scan of the log, which is read piece by piece. The scanner says which range it needs next, is
/// handed the bytes of that range, and is then handed the record that they spell.
#[derive(Debug)]
pub struct OutputLogScanner {
    pub file_bytes: u64,
    pub position: u64,
    pub phase: LogScanPhase,
    pub records: OutputRecoveryRecords,
}

impl OutputLogScanner {
    pub open spec fn well_formed(self) -> bool {
        &&& self.position <= self.file_bytes
        &&& match self.phase {
            LogScanPhase::Frame { header, decoded } => decoded.describes(header@) && self.position
                + decoded.frame_bytes() <= self.file_bytes,
            LogScanPhase::Record { decoded } => 0 < decoded.payload_bytes
                <= MAXIMUM_RECOVERY_PAYLOAD_BYTES && self.position + decoded.frame_bytes()
                <= self.file_bytes,
            LogScanPhase::Header => true,
            LogScanPhase::Finished => true,
        }
    }

    pub fn new(file_bytes: u64) -> (r: Self)
        ensures
            r.well_formed(),
            r.file_bytes == file_bytes,
            r.position == 0,
            r.phase is Header,
            r.records@ == Map::<OutputRecoveryId, RecordView>::empty(),
    {
        OutputLogScanner {
            file_bytes,
            position: 0,
            phase: LogScanPhase::Header,
            records: OutputRecoveryRecords::new(),
        }
    }

    pub open spec fn spec_next_read(self) -> Option<SpoolRead> {
        match self.phase {
            LogScanPhase::Header => if self.position == self.file_bytes {
                None
            } else {
                Some(
                    SpoolRead {
                        start: self.position,
                        length: if self.file_bytes - self.position < RECOVERY_HEADER_BYTES {
                            (self.file_bytes - self.position) as u64
                        } else {
                            RECOVERY_HEADER_BYTES as u64
                        },
                    },
                )
            },
            LogScanPhase::Frame { decoded, .. } => Some(
                SpoolRead {
                    start: (self.position + RECOVERY_HEADER_BYTES) as u64,
                    length: (decoded.payload_bytes + RECOVERY_FOOTER_BYTES) as u64,
                },
            ),
            LogScanPhase::Record { .. } => None,
            LogScanPhase::Finished => None,
        }
    }

    /// The range to read next, or `None` if no bytes are needed. No range is longer than a header,
    /// or than the longest payload with its footer.
    pub fn next_read(&self) -> (r: Option<SpoolRead>)
        requires
            self.well_formed(),
        ensures
            r == self.spec_next_read(),
            r matches Some(read) ==> read.start + read.length <= self.file_bytes,
            r matches Some(read) ==> read.length <= MAXIMUM_RECOVERY_PAYLOAD_BYTES
                + RECOVERY_FOOTER_BYTES,
    {
        match &self.phase {
            LogScanPhase::Header => {
                let remaining: u64 = self.file_bytes - self.position;
                if remaining == 0 {
                    None
                } else if remaining < RECOVERY_HEADER_BYTES as u64 {
                    Some(SpoolRead { start: self.position, length: remaining })
                } else {
                    Some(SpoolRead { start: self.position, length: RECOVERY_HEADER_BYTES as u64 })
                }
            },
            LogScanPhase::Frame { decoded, .. } => Some(
                SpoolRead {
                    start: self.position + RECOVERY_HEADER_BYTES as u64,
                    length: decoded.payload_bytes + RECOVERY_FOOTER_BYTES as u64,
                },
            ),
            LogScanPhase::Record { .. } => None,
            LogScanPhase::Finished => None,
        }
    }

    /// What handing over `bytes` leads to: a failure, or the phase that the scan is then in, with
    /// the payload that was completed.
    pub open spec fn supplied(
        self,
        bytes: Seq<u8>,
        next: LogScanPhase,
        outcome: Result<Option<Vec<u8>>, OutputRecoveryError>,
    ) -> bool {
        match self.phase {
            LogScanPhase::Header => if bytes.len() < RECOVERY_HEADER_BYTES {
                match recovery_prefix_fault(bytes) {
                    Some(fault) => outcome == Err::<Option<Vec<u8>>, OutputRecoveryError>(
                        OutputRecoveryError::Corrupt(fault),
                    ),
                    None => outcome == Ok::<Option<Vec<u8>>, OutputRecoveryError>(None)
                        && next is Finished,
                }
            } else {
                let frame_bytes = be_value(bytes.subrange(12, 20)) + RECOVERY_HEADER_BYTES
                    + RECOVERY_FOOTER_BYTES;
                match recovery_header_fault(bytes) {
                    Some(fault) => outcome == Err::<Option<Vec<u8>>, OutputRecoveryError>(
                        OutputRecoveryError::Corrupt(fault),
                    ),
                    None => if self.position + frame_bytes > u64::MAX {
                        outcome == Err::<Option<Vec<u8>>, OutputRecoveryError>(
                            OutputRecoveryError::Corrupt(RecoveryLogCorruption::FramePosition),
                        )
                    } else if self.position + frame_bytes > self.file_bytes {
                        outcome == Ok::<Option<Vec<u8>>, OutputRecoveryError>(None)
                            && next is Finished
                    } else {
                        &&& outcome == Ok::<Option<Vec<u8>>, OutputRecoveryError>(None)
                        &&& next matches LogScanPhase::Frame { header, decoded }
                        &&& header@ == bytes
                        &&& decoded.describes(bytes)
                    },
                }
            },
            LogScanPhase::Frame { header, decoded } => {
                let payload = bytes.subrange(0, decoded.payload_bytes as int);
                let footer = bytes.subrange(decoded.payload_bytes as int, bytes.len() as int);
                match recovery_frame_fault(header@, payload, footer) {
                    Some(fault) => outcome == Err::<Option<Vec<u8>>, OutputRecoveryError>(
                        OutputRecoveryError::Corrupt(fault),
                    ),
                    None => {
                        &&& outcome matches Ok(Some(completed))
                        &&& completed@ == payload
                        &&& next == (LogScanPhase::Record { decoded })
                    },
                }
            },
            _ => false,
        }
    }

    /// Takes the bytes of the range that was asked for, and returns the payload that they
    /// complete. After a failure the scan cannot go on.
    pub fn supply(&mut self, bytes: &[u8]) -> (r: Result<Option<Vec<u8>>, OutputRecoveryError>)
        requires
            old(self).well_formed(),
            old(self).spec_next_read() matches Some(read) && bytes@.len() == read.length,
        ensures
            final(self).file_bytes == old(self).file_bytes,
            final(self).position == old(self).position,
            final(self).records == old(self).records,
            old(self).supplied(bytes@, final(self).phase, r),
            r is Ok ==> final(self).well_formed(),
    {
        let mut phase: LogScanPhase = LogScanPhase::Finished;
        std::mem::swap(&mut phase, &mut self.phase);
        match phase {
            LogScanPhase::Header => {
                if bytes.len() < RECOVERY_HEADER_BYTES {
                    return match validate_incomplete_header(bytes) {
                        Ok(_) => Ok(None),
                        Err(e) => Err(e),
                    };
                }
                let decoded: DecodedRecoveryHeader = match decode_recovery_header(bytes) {
                    Ok(decoded) => decoded,
                    Err(e) => {
                        return Err(e);
                    },
                };
                let frame_bytes: u64 = decoded.payload_bytes + 124;
                match self.position.checked_add(frame_bytes) {
                    Some(frame_end) => {
                        if frame_end <= self.file_bytes {
                            let header: Vec<u8> = copy_range(bytes, 0, RECOVERY_HEADER_BYTES);
                            assert(header@ =~= bytes@);
                            self.phase = LogScanPhase::Frame { header, decoded };
                        }
                        Ok(None)
                    },
                    None => Err(
                        OutputRecoveryError::Corrupt(RecoveryLogCorruption::FramePosition),
                    ),
                }
            },
            LogScanPhase::Frame { header, decoded } => {
                let payload_bytes: usize = decoded.payload_bytes as usize;
                let payload: &[u8] = vstd::slice::slice_subrange(bytes, 0, payload_bytes);
                let footer: &[u8] = vstd::slice::slice_subrange(bytes, payload_bytes, bytes.len());
                match validate_recovery_frame(header.as_slice(), payload, footer) {
                    Ok(_) => {
                        self.phase = LogScanPhase::Record { decoded };
                        Ok(Some(copy_range(bytes, 0, payload_bytes)))
                    },
                    Err(e) => Err(e),
                }
            },
            _ => Ok(None),
        }
    }

    /// Takes the record that the payload spells.
    pub fn accept(&mut self, record: OutputRecoveryRecord) -> (r: Result<(), OutputRecoveryError>)
        requires
            old(self).well_formed(),
            old(self).phase is Record,
        ensures
            final(self).file_bytes == old(self).file_bytes,
            r is Ok ==> final(self).well_formed(),
            ({
                let decoded = old(self).phase->Record_decoded;
                &&& r == accepted(
                    old(self).records@,
                    decoded.recovery_id,
                    decoded.revision,
                    record@,
                )
                &&& r is Ok ==> {
                    &&& final(self).records@ == old(self).records@.insert(record.id, record@)
                    &&& final(self).position == old(self).position + decoded.frame_bytes()
                    &&& final(self).phase is Header
                }
            }),
    {
        let decoded: DecodedRecoveryHeader = match &self.phase {
            LogScanPhase::Record { decoded } => *decoded,
            _ => {
                return Ok(());
            },
        };
        if record.id.as_u128() != decoded.recovery_id || record.revision != decoded.revision {
            return Err(OutputRecoveryError::Corrupt(RecoveryLogCorruption::Identities));
        }
        match self.records.recover(record) {
            Ok(_) => {},
            Err(e) => {
                return Err(e);
            },
        }
        self.advance(decoded);
        Ok(())
    }

    /// Goes on behind the record whose payload was completed.
    fn advance(&mut self, decoded: DecodedRecoveryHeader)
        requires
            old(self).well_formed(),
            old(self).phase == (LogScanPhase::Record { decoded }),
        ensures
            final(self).well_formed(),
            final(self).file_bytes == old(self).file_bytes,
            final(self).position == old(self).position + decoded.frame_bytes(),
            final(self).phase is Header,
            final(self).records == old(self).records,
    {
        self.position = self.position + (decoded.payload_bytes + 124);
        self.phase = LogScanPhase::Header;
    }
}

/// What stands at a place of the log.
pub enum LogFrameAt {
    Complete { end: int },
    Torn,
    Corrupt(RecoveryLogCorruption),
}

/// Reads the record at `position` of a log.
pub open spec fn log_frame_at(file: Seq<u8>, position: int) -> LogFrameAt {
    let rest = file.subrange(position, file.len() as int);
    if rest.len() < RECOVERY_HEADER_BYTES {
        match recovery_prefix_fault(rest) {
            Some(fault) => LogFrameAt::Corrupt(fault),
            None => LogFrameAt::Torn,
        }
    } else {
        let header = rest.subrange(0, RECOVERY_HEADER_BYTES as int);
        let payload_end = RECOVERY_HEADER_BYTES + be_value(header.subrange(12, 20));
        let end = payload_end + RECOVERY_FOOTER_BYTES;
        match recovery_header_fault(header) {
            Some(fault) => LogFrameAt::Corrupt(fault),
            None => if position + end > u64::MAX {
                LogFrameAt::Corrupt(RecoveryLogCorruption::FramePosition)
            } else if end > rest.len() {
                LogFrameAt::Torn
            } else {
                match recovery_frame_fault(
                    header,
                    rest.subrange(RECOVERY_HEADER_BYTES as int, payload_end),
                    rest.subrange(payload_end, end),
                ) {
                    Some(fault) => LogFrameAt::Corrupt(fault),
                    None => LogFrameAt::Complete { end: position + end },
                }
            },
        }
    }
}

/// A record of the log, before its payload is read.
#[derive(Debug)]
pub struct LogEntry {
    pub recovery_id: u128,
    pub revision: u64,
    pub payload: Vec<u8>,
}

/// The value of a log entry.
pub struct EntryView {
    pub recovery_id: u128,
    pub revision: u64,
    pub payload: Seq<u8>,
}

impl View for LogEntry {
    type V = EntryView;

    open spec fn view(&self) -> EntryView {
        EntryView {
            recovery_id: self.recovery_id,
            revision: self.revision,
            payload: self.payload@,
        }
    }
}

/// The values of log entries.
pub open spec fn entry_views(entries: Seq<LogEntry>) -> Seq<EntryView> {
    entries.map_values(|entry: LogEntry| entry@)
}

/// The entry that stands between two places of a log.
pub open spec fn entry_between(file: Seq<u8>, position: int, end: int) -> EntryView {
    let header = file.subrange(position, position + RECOVERY_HEADER_BYTES);
    EntryView {
        recovery_id: be_value(header.subrange(20, 36)) as u128,
        revision: be_value(header.subrange(36, 44)) as u64,
        payload: file.subrange(position + RECOVERY_HEADER_BYTES, end - RECOVERY_FOOTER_BYTES),
    }
}

/// What a log holds from `position` on, behind the entries before it: all entries, and the place
/// behind the last of them.
pub open spec fn log_from(file: Seq<u8>, position: int, found: Seq<EntryView>) -> Result<
    (Seq<EntryView>, int),
    RecoveryLogCorruption,
>
    decreases file.len() - position,
{
    if position >= file.len() {
        Ok((found, position))
    } else {
        match log_frame_at(file, position) {
            LogFrameAt::Complete { end } => if position < end <= file.len() {
                log_from(file, end, found.push(entry_between(file, position, end)))
            } else {
                Ok((found, position))
            },
            LogFrameAt::Torn => Ok((found, position)),
            LogFrameAt::Corrupt(fault) => Err(fault),
        }
    }
}

/// Scans a log that is held in memory. It returns the entries, and how many bytes they take: what
/// stands behind them is an append that was interrupted.
pub fn scan_log(file: &[u8]) -> (r: Result<(Vec<LogEntry>, u64), OutputRecoveryError>)
    ensures
        match log_from(file@, 0, Seq::empty()) {
            Ok((entries, committed)) => r matches Ok((found, bytes)) && entry_views(found@)
                == entries && bytes == committed,
            Err(fault) => r == Err::<(Vec<LogEntry>, u64), OutputRecoveryError>(
                OutputRecoveryError::Corrupt(fault),
            ),
        },
{
    let total: usize = file.len();
    let mut scanner: OutputLogScanner = OutputLogScanner::new(total as u64);
    let mut entries: Vec<LogEntry> = Vec::new();
    assert(entry_views(entries@) =~= Seq::<EntryView>::empty());
    loop
        invariant
            total == file@.len() <= u64::MAX,
            scanner.well_formed(),
            scanner.file_bytes == total,
            scanner.phase is Header,
            log_from(file@, 0, Seq::empty()) == log_from(
                file@,
                scanner.position as int,
                entry_views(entries@),
            ),
        decreases total - scanner.position,
    {
        let ghost position = scanner.position as int;
        let ghost rest = file@.subrange(position, total as int);
        let read: SpoolRead = match scanner.next_read() {
            Some(read) => read,
            None => {
                return Ok((entries, scanner.position));
            },
        };
        let header: &[u8] = vstd::slice::slice_subrange(
            file,
            read.start as usize,
            (read.start + read.length) as usize,
        );
        assert(header@ =~= rest.subrange(0, read.length as int));
        assert(read.length < RECOVERY_HEADER_BYTES ==> header@ =~= rest);
        match scanner.supply(header) {
            Ok(_) => {},
            Err(e) => {
                return Err(e);
            },
        }
        let decoded: DecodedRecoveryHeader = match &scanner.phase {
            LogScanPhase::Frame { decoded, .. } => *decoded,
            _ => {
                return Ok((entries, scanner.position));
            },
        };
        let read: SpoolRead = match scanner.next_read() {
            Some(read) => read,
            None => {
                return Ok((entries, scanner.position));
            },
        };
        let behind: &[u8] = vstd::slice::slice_subrange(
            file,
            read.start as usize,
            (read.start + read.length) as usize,
        );
        let ghost end = position + decoded.frame_bytes();
        let ghost payload_end = RECOVERY_HEADER_BYTES + decoded.payload_bytes;
        proof {
            let payload = behind@.subrange(0, decoded.payload_bytes as int);
            assert(payload =~= rest.subrange(RECOVERY_HEADER_BYTES as int, payload_end));
            assert(behind@.subrange(decoded.payload_bytes as int, behind@.len() as int)
                =~= rest.subrange(payload_end, payload_end + RECOVERY_FOOTER_BYTES));
            assert(payload =~= file@.subrange(
                position + RECOVERY_HEADER_BYTES,
                end - RECOVERY_FOOTER_BYTES,
            ));
            assert(header@ =~= file@.subrange(position, position + RECOVERY_HEADER_BYTES));
        }
        let payload: Vec<u8> = match scanner.supply(behind) {
            Ok(Some(payload)) => payload,
            Ok(None) => vstd::pervasive::unreached(),
            Err(e) => {
                return Err(e);
            },
        };
        let ghost before = entries@;
        let entry: LogEntry = LogEntry {
            recovery_id: decoded.recovery_id,
            revision: decoded.revision,
            payload,
        };
        let ghost view = entry@;
        entries.push(entry);
        scanner.advance(decoded);
        proof {
            assert(entry_views(entries@) =~= entry_views(before).push(view));
            assert(view == entry_between(file@, position, end));
        }
    }
}

/// The log that appends write, one after another.
pub open spec fn log_bytes(entries: Seq<EntryView>) -> Seq<u8>
    decreases entries.len(),
{
    if entries.len() == 0 {
        Seq::empty()
    } else {
        entry_bytes(entries[0]) + log_bytes(entries.drop_first())
    }
}

/// The bytes that the append of an entry writes.
pub open spec fn entry_bytes(entry: EntryView) -> Seq<u8> {
    recovery_frame_bytes(entry.recovery_id, entry.revision, entry.payload)
}

/// Whether the payload of each entry can be written.
pub open spec fn recordable_entries(entries: Seq<EntryView>) -> bool {
    forall|i: int|
        #![trigger entries[i]]
        0 <= i < entries.len() ==> 0 < entries[i].payload.len() <= MAXIMUM_RECOVERY_PAYLOAD_BYTES
}

/// A recorded entry is found where it was written, whatever stands around it.
pub proof fn recorded_entry_is_found(before: Seq<u8>, entry: EntryView, after: Seq<u8>)
    requires
        0 < entry.payload.len() <= MAXIMUM_RECOVERY_PAYLOAD_BYTES,
        before.len() + entry_bytes(entry).len() <= u64::MAX,
    ensures
        ({
            let file = before + entry_bytes(entry) + after;
            let end = (before.len() + entry_bytes(entry).len()) as int;
            &&& log_frame_at(file, before.len() as int) == (LogFrameAt::Complete { end })
            &&& entry_between(file, before.len() as int, end) == entry
        }),
{
    let header = recovery_header_bytes(entry.recovery_id, entry.revision, entry.payload);
    let footer = recovery_footer_bytes(header, entry.payload);
    let file = before + entry_bytes(entry) + after;
    let rest = file.subrange(before.len() as int, file.len() as int);
    let payload_end = RECOVERY_HEADER_BYTES + entry.payload.len();
    recovery_frame_reads_back(entry.recovery_id, entry.revision, entry.payload);
    lemma_footer_len(header, entry.payload);
    assert(rest.subrange(0, RECOVERY_HEADER_BYTES as int) =~= header);
    assert(rest.subrange(RECOVERY_HEADER_BYTES as int, payload_end) =~= entry.payload);
    assert(rest.subrange(payload_end, payload_end + RECOVERY_FOOTER_BYTES) =~= footer);
    assert(file.subrange(before.len() as int, before.len() + RECOVERY_HEADER_BYTES) =~= header);
    assert(file.subrange(before.len() + RECOVERY_HEADER_BYTES, before.len() + payload_end)
        =~= entry.payload);
}

/// The beginning of an entry at the end of the log is an interrupted append, not corruption.
pub proof fn interrupted_entry_is_torn(before: Seq<u8>, entry: EntryView, length: int)
    requires
        0 < entry.payload.len() <= MAXIMUM_RECOVERY_PAYLOAD_BYTES,
        0 < length < entry_bytes(entry).len(),
        length >= RECOVERY_HEADER_BYTES ==> before.len() + entry_bytes(entry).len() <= u64::MAX,
    ensures
        log_frame_at(before + entry_bytes(entry).subrange(0, length), before.len() as int)
            == LogFrameAt::Torn,
{
    let header = recovery_header_bytes(entry.recovery_id, entry.revision, entry.payload);
    let tail = entry_bytes(entry).subrange(0, length);
    let file = before + tail;
    let rest = file.subrange(before.len() as int, file.len() as int);
    recovery_frame_reads_back(entry.recovery_id, entry.revision, entry.payload);
    lemma_footer_len(header, entry.payload);
    assert(rest =~= tail);
    if length < RECOVERY_HEADER_BYTES {
        recovery_prefix_is_accepted(entry.recovery_id, entry.revision, entry.payload, length);
        assert(tail =~= header.subrange(0, length));
    } else {
        assert(rest.subrange(0, RECOVERY_HEADER_BYTES as int) =~= header);
    }
}

/// A scan passes over recorded entries, whatever stands behind them.
proof fn lemma_log_passes(
    before: Seq<u8>,
    entries: Seq<EntryView>,
    after: Seq<u8>,
    found: Seq<EntryView>,
)
    requires
        recordable_entries(entries),
        before.len() + log_bytes(entries).len() <= u64::MAX,
    ensures
        log_from(before + (log_bytes(entries) + after), before.len() as int, found) == log_from(
            before + (log_bytes(entries) + after),
            (before.len() + log_bytes(entries).len()) as int,
            found + entries,
        ),
    decreases entries.len(),
{
    let file = before + (log_bytes(entries) + after);
    if entries.len() > 0 {
        let entry = entries[0];
        let others = entries.drop_first();
        let next = before + entry_bytes(entry);
        assert(forall|i: int|
            #![trigger others[i]]
            0 <= i < others.len() ==> others[i] == entries[i + 1]);
        assert(file =~= before + entry_bytes(entry) + (log_bytes(others) + after));
        recorded_entry_is_found(before, entry, log_bytes(others) + after);
        lemma_footer_len(
            recovery_header_bytes(entry.recovery_id, entry.revision, entry.payload),
            entry.payload,
        );
        lemma_log_passes(next, others, after, found.push(entry));
        assert(file =~= next + (log_bytes(others) + after));
        assert(found.push(entry) + others =~= found + entries);
    } else {
        assert(found + entries =~= found);
    }
}

/// A scan of the log gives back every entry that was recorded, in order, and passes over nothing
/// but the beginning of an entry whose append was interrupted.
pub proof fn recorded_entries_are_read_back(
    entries: Seq<EntryView>,
    interrupted: EntryView,
    length: int,
)
    requires
        recordable_entries(entries),
        0 < interrupted.payload.len() <= MAXIMUM_RECOVERY_PAYLOAD_BYTES,
        0 <= length < entry_bytes(interrupted).len(),
        log_bytes(entries).len() <= u64::MAX,
        length >= RECOVERY_HEADER_BYTES ==> log_bytes(entries).len() + entry_bytes(
            interrupted,
        ).len() <= u64::MAX,
    ensures
        log_from(
            log_bytes(entries) + entry_bytes(interrupted).subrange(0, length),
            0,
            Seq::empty(),
        ) == Ok::<(Seq<EntryView>, int), RecoveryLogCorruption>(
            (entries, log_bytes(entries).len() as int),
        ),
{
    let tail = entry_bytes(interrupted).subrange(0, length);
    let file = log_bytes(entries) + tail;
    assert(file =~= Seq::<u8>::empty() + file);
    assert(Seq::<EntryView>::empty() + entries =~= entries);
    lemma_log_passes(Seq::empty(), entries, tail, Seq::empty());
    if length > 0 {
        interrupted_entry_is_torn(log_bytes(entries), interrupted, length);
    }
}

/// Whether bytes differ from the beginning of a record within its first eight bytes.
pub open spec fn begins_otherwise(tail: Seq<u8>) -> bool {
    exists|i: int|
        0 <= i < tail.len() && i < 8 && #[trigger] tail[i] != recovery_magic()[i]
}

/// Bytes behind the recorded entries that no append begins with make the log corrupt: they are not
/// passed over as an interrupted append.
pub proof fn foreign_bytes_are_corruption(entries: Seq<EntryView>, tail: Seq<u8>)
    requires
        recordable_entries(entries),
        begins_otherwise(tail),
        log_bytes(entries).len() <= u64::MAX,
    ensures
        log_from(log_bytes(entries) + tail, 0, Seq::empty()) == Err::<
            (Seq<EntryView>, int),
            RecoveryLogCorruption,
        >(
            if tail.len() < RECOVERY_HEADER_BYTES {
                RecoveryLogCorruption::IncompletePrefix
            } else {
                RecoveryLogCorruption::Magic
            },
        ),
{
    reveal(recovery_prefix_fault);
    reveal(recovery_header_fault);
    let file = log_bytes(entries) + tail;
    let start = log_bytes(entries).len() as int;
    let i = choose|i: int|
        0 <= i < tail.len() && i < 8 && #[trigger] tail[i] != recovery_magic()[i];
    assert(file =~= Seq::<u8>::empty() + file);
    lemma_log_passes(Seq::empty(), entries, tail, Seq::empty());
    let rest = file.subrange(start, file.len() as int);
    assert(rest =~= tail);
    if tail.len() < RECOVERY_HEADER_BYTES {
        let magic_bytes: int = if tail.len() < 8 {
            tail.len() as int
        } else {
            8
        };
        assert(tail.subrange(0, magic_bytes)[i] == tail[i]);
        assert(recovery_magic().subrange(0, magic_bytes)[i] == recovery_magic()[i]);
    } else {
        let header = rest.subrange(0, RECOVERY_HEADER_BYTES as int);
        assert(header.subrange(0, 8)[i] == tail[i]);
    }
}

/// The records after outputs were recorded one after another, if each of them could be.
pub open spec fn recorded(history: Seq<RecordView>) -> Option<Map<OutputRecoveryId, RecordView>>
    decreases history.len(),
{
    if history.len() == 0 {
        Some(Map::empty())
    } else {
        match recorded(history.drop_last()) {
            Some(records) => if recordable(records, history.last()) {
                Some(records.insert(history.last().id, history.last()))
            } else {
                None
            },
            None => None,
        }
    }
}

/// The records after entries of a log, which spell these records, were read back.
pub open spec fn read_back(entries: Seq<EntryView>, history: Seq<RecordView>) -> Result<
    Map<OutputRecoveryId, RecordView>,
    OutputRecoveryError,
>
    decreases history.len(),
{
    if history.len() == 0 {
        Ok(Map::empty())
    } else {
        match read_back(entries.drop_last(), history.drop_last()) {
            Err(e) => Err(e),
            Ok(records) => match accepted(
                records,
                entries.last().recovery_id,
                entries.last().revision,
                history.last(),
            ) {
                Err(e) => Err(e),
                Ok(_) => Ok(records.insert(history.last().id, history.last())),
            },
        }
    }
}

/// What records hold.
pub open spec fn record_views(records: Seq<OutputRecoveryRecord>) -> Seq<RecordView> {
    Seq::new(records.len(), |i: int| records[i]@)
}

proof fn lemma_read_back_fault_persists(
    entries: Seq<EntryView>,
    history: Seq<RecordView>,
    count: int,
)
    requires
        entries.len() == history.len(),
        0 <= count <= history.len(),
        read_back(entries.subrange(0, count), history.subrange(0, count)) is Err,
    ensures
        read_back(entries, history) == read_back(
            entries.subrange(0, count),
            history.subrange(0, count),
        ),
    decreases history.len(),
{
    if count < history.len() {
        assert(entries.drop_last().subrange(0, count) =~= entries.subrange(0, count));
        assert(history.drop_last().subrange(0, count) =~= history.subrange(0, count));
        lemma_read_back_fault_persists(entries.drop_last(), history.drop_last(), count);
    } else {
        assert(entries.subrange(0, count) =~= entries);
        assert(history.subrange(0, count) =~= history);
    }
}

/// Reads back the entries of a log, which spell these records.
pub fn read_records(entries: &Vec<LogEntry>, records: Vec<OutputRecoveryRecord>) -> (r: Result<
    OutputRecoveryRecords,
    OutputRecoveryError,
>)
    requires
        entries@.len() == records@.len(),
    ensures
        match read_back(entry_views(entries@), record_views(records@)) {
            Ok(held) => r matches Ok(found) && found@ == held,
            Err(e) => r == Err::<OutputRecoveryRecords, OutputRecoveryError>(e),
        },
{
    let ghost all = records@;
    let ghost views = entry_views(entries@);
    let ghost history = record_views(all);
    let mut found: OutputRecoveryRecords = OutputRecoveryRecords::new();
    let mut index: usize = 0;
    assert(views.subrange(0, 0) =~= Seq::empty());
    assert(history.subrange(0, 0) =~= Seq::empty());
    for record in iter: records
        invariant
            iter.seq() == all,
            index == iter.index(),
            entries@.len() == all.len(),
            views == entry_views(entries@),
            history == record_views(all),
            read_back(views.subrange(0, index as int), history.subrange(0, index as int)) == Ok::<
                Map<OutputRecoveryId, RecordView>,
                OutputRecoveryError,
            >(found@),
    {
        proof {
            let more = history.subrange(0, index + 1);
            assert(entries.len() == entries@.len());
            assert(more.drop_last() =~= history.subrange(0, index as int));
            assert(views.subrange(0, index + 1).drop_last() =~= views.subrange(0, index as int));
            assert(views.subrange(0, index + 1).last() == entries@[index as int]@);
            assert(more.last() == record@);
        }
        let outcome: Result<(), OutputRecoveryError> = if record.id.as_u128()
            != entries[index].recovery_id || record.revision != entries[index].revision {
            Err(OutputRecoveryError::Corrupt(RecoveryLogCorruption::Identities))
        } else {
            found.recover(record)
        };
        if let Err(e) = outcome {
            proof {
                lemma_read_back_fault_persists(views, history, index + 1);
            }
            return Err(e);
        }
        index = index + 1;
    }
    assert(views.subrange(0, views.len() as int) =~= views);
    assert(history.subrange(0, history.len() as int) =~= history);
    Ok(found)
}

/// Whether each entry stands under the identity and the revision of its record.
pub open spec fn entries_of(entries: Seq<EntryView>, history: Seq<RecordView>) -> bool {
    &&& entries.len() == history.len()
    &&& forall|i: int|
        0 <= i < entries.len() ==> (#[trigger] entries[i]).recovery_id
            == history[i].id.spec_value() && entries[i].revision == history[i].revision
}

/// The last record under an identity.
pub open spec fn latest(history: Seq<RecordView>, id: OutputRecoveryId) -> Option<RecordView>
    decreases history.len(),
{
    if history.len() == 0 {
        None
    } else if history.last().id == id {
        Some(history.last())
    } else {
        latest(history.drop_last(), id)
    }
}

/// How often an identity was recorded.
pub open spec fn times_recorded(history: Seq<RecordView>, id: OutputRecoveryId) -> nat
    decreases history.len(),
{
    if history.len() == 0 {
        0
    } else {
        times_recorded(history.drop_last(), id) + if history.last().id == id {
            1nat
        } else {
            0nat
        }
    }
}

/// The records hold the last record under each identity, whose revision counts how often that
/// identity was recorded.
pub proof fn records_are_the_latest_revisions(history: Seq<RecordView>, id: OutputRecoveryId)
    requires
        recorded(history) is Some,
    ensures
        recorded(history)->0.contains_key(id) <==> latest(history, id) is Some,
        latest(history, id) matches Some(record) ==> recorded(history)->0[id] == record
            && record.id == id && record.revision == times_recorded(history, id),
        latest(history, id) is None ==> times_recorded(history, id) == 0,
    decreases history.len(),
{
    if history.len() > 0 {
        records_are_the_latest_revisions(history.drop_last(), id);
    }
}

proof fn lemma_recorded_finite(history: Seq<RecordView>)
    requires
        recorded(history) is Some,
    ensures
        recorded(history)->0.dom().finite(),
    decreases history.len(),
{
    if history.len() > 0 {
        lemma_recorded_finite(history.drop_last());
    }
}

proof fn lemma_recorded_reads_back(entries: Seq<EntryView>, history: Seq<RecordView>)
    requires
        recorded(history) is Some,
        recorded(history)->0.dom().len() <= MAXIMUM_RECOVERY_RECORDS,
        entries_of(entries, history),
    ensures
        read_back(entries, history) == Ok::<
            Map<OutputRecoveryId, RecordView>,
            OutputRecoveryError,
        >(recorded(history)->0),
    decreases history.len(),
{
    if history.len() > 0 {
        let less = recorded(history.drop_last())->0;
        let all = recorded(history)->0;
        lemma_recorded_finite(history.drop_last());
        lemma_recorded_finite(history);
        assert(less.dom().subset_of(all.dom()));
        vstd::set_lib::lemma_len_subset(less.dom(), all.dom());
        assert(forall|i: int|
            #![trigger entries.drop_last()[i]]
            0 <= i < entries.len() - 1 ==> entries.drop_last()[i] == entries[i]);
        lemma_recorded_reads_back(entries.drop_last(), history.drop_last());
        assert(entries.last() == entries[entries.len() - 1]);
    }
}

/// A log to which outputs were recorded one after another, and whose last append may have been
/// interrupted, is read back to the same records: each identity with its last revision. Everything
/// but the interrupted append is kept.
pub proof fn recorded_log_is_recovered(
    history: Seq<RecordView>,
    entries: Seq<EntryView>,
    interrupted: EntryView,
    length: int,
)
    requires
        recorded(history) is Some,
        recorded(history)->0.dom().len() <= MAXIMUM_RECOVERY_RECORDS,
        entries_of(entries, history),
        recordable_entries(entries),
        0 < interrupted.payload.len() <= MAXIMUM_RECOVERY_PAYLOAD_BYTES,
        0 <= length < entry_bytes(interrupted).len(),
        log_bytes(entries).len() <= u64::MAX,
        length >= RECOVERY_HEADER_BYTES ==> log_bytes(entries).len() + entry_bytes(
            interrupted,
        ).len() <= u64::MAX,
    ensures
        log_from(
            log_bytes(entries) + entry_bytes(interrupted).subrange(0, length),
            0,
            Seq::empty(),
        ) == Ok::<(Seq<EntryView>, int), RecoveryLogCorruption>(
            (entries, log_bytes(entries).len() as int),
        ),
        read_back(entries, history) == Ok::<
            Map<OutputRecoveryId, RecordView>,
            OutputRecoveryError,
        >(recorded(history)->0),
        forall|id: OutputRecoveryId|
            #![trigger latest(history, id)]
            (recorded(history)->0.contains_key(id) <==> latest(history, id) is Some) && (latest(
                history,
                id,
            ) matches Some(record) ==> recorded(history)->0[id] == record),
{
    recorded_entries_are_read_back(entries, interrupted, length);
    lemma_recorded_reads_back(entries, history);
    assert forall|id: OutputRecoveryId|
        #![trigger latest(history, id)]
        (recorded(history)->0.contains_key(id) <==> latest(history, id) is Some) && (latest(
            history,
            id,
        ) matches Some(record) ==> recorded(history)->0[id] == record) by {
        records_are_the_latest_revisions(history, id);
    }
}

proof fn lemma_footer_len(header: Seq<u8>, payload: Seq<u8>)
    ensures
        recovery_footer_bytes(header, payload).len() == RECOVERY_FOOTER_BYTES,
{
    broadcast use lemma_be_bytes_len;

}

/// Whether a record is one that may have come before another under its identity: it covers the same,
/// is of the same kind and has a lesser revision, or is the same.
pub open spec fn became(earlier: RecordView, later: RecordView) -> bool {
    &&& earlier.id == later.id
    &&& earlier.coverage == later.coverage
    &&& earlier.output is Segment <==> later.output is Segment
    &&& earlier.revision < later.revision || earlier == later
}

/// Whether no two outputs are stored in one object.
pub open spec fn objects_differ(records: Map<OutputRecoveryId, RecordView>) -> bool {
    forall|left: OutputRecoveryId, right: OutputRecoveryId|
        #![trigger records[left], records[right]]
        records.contains_key(left) && records.contains_key(right) && left != right
            ==> records[left].output.object().object_id != records[right].output.object().object_id
}

/// What an output covers, and whether it is a segment, stays as it was first recorded. Each record of
/// it has a greater revision than the ones before it, and no two outputs are ever stored in one
/// object.
pub proof fn recorded_outputs_keep_what_they_cover(history: Seq<RecordView>)
    requires
        recorded(history) is Some,
    ensures
        forall|i: int|
            0 <= i < history.len() ==> recorded(history)->0.contains_key(
                (#[trigger] history[i]).id,
            ) && became(history[i], recorded(history)->0[history[i].id]),
        objects_differ(recorded(history)->0),
    decreases history.len(),
{
    if history.len() > 0 {
        let before = history.drop_last();
        let next = history.last();
        let held = recorded(before)->0;
        let now = recorded(history)->0;
        recorded_outputs_keep_what_they_cover(before);
        assert(now == held.insert(next.id, next));
        assert forall|i: int| 0 <= i < history.len() implies now.contains_key(
            (#[trigger] history[i]).id,
        ) && became(history[i], now[history[i].id]) by {
            if i < before.len() {
                assert(before[i] == history[i]);
            }
        }
        assert forall|left: OutputRecoveryId, right: OutputRecoveryId|
            #![trigger now[left], now[right]]
            now.contains_key(left) && now.contains_key(right) && left
                != right implies now[left].output.object().object_id
            != now[right].output.object().object_id by {
            if left == next.id {
                assert(held.contains_key(right));
            } else if right == next.id {
                assert(held.contains_key(left));
            } else {
                assert(held[left] == now[left] && held[right] == now[right]);
            }
        }
    }
}

/// An output that is not recorded yet can be recorded at its first revision, and one that is at the
/// next, with what it covers, as long as no other output is stored in its object.
pub proof fn the_next_revision_can_be_recorded(
    records: Map<OutputRecoveryId, RecordView>,
    next: RecordView,
)
    requires
        records.contains_key(next.id) ==> records[next.id].id == next.id,
    ensures
        recordable(records, next) <==> {
            &&& next.revision == 1 + if records.contains_key(next.id) {
                records[next.id].revision as int
            } else {
                0
            }
            &&& records.contains_key(next.id) ==> became(records[next.id], next)
            &&& forall|id: OutputRecoveryId|
                records.contains_key(id) && id != next.id ==> (
                #[trigger] records[id]).output.object().object_id
                    != next.output.object().object_id
        },
{
}

/// Nothing is accepted as a record of the log but what a record is written as.
pub proof fn only_written_records_are_accepted(
    header: Seq<u8>,
    payload: Seq<u8>,
    footer: Seq<u8>,
)
    requires
        header.len() == RECOVERY_HEADER_BYTES,
        recovery_header_fault(header) is None,
        payload.len() == be_value(header.subrange(12, 20)),
        recovery_frame_fault(header, payload, footer) is None,
    ensures
        0 < payload.len() <= MAXIMUM_RECOVERY_PAYLOAD_BYTES,
        header + payload + footer == recovery_frame_bytes(
            be_value(header.subrange(20, 36)) as u128,
            be_value(header.subrange(36, 44)) as u64,
            payload,
        ),
{
    broadcast use lemma_be_bytes_len;

    reveal(recovery_header_fault);
    let id = be_value(header.subrange(20, 36)) as u128;
    let revision = be_value(header.subrange(36, 44)) as u64;
    lemma_be_limits();
    lemma_be_value_bound(header.subrange(20, 36));
    lemma_be_value_bound(header.subrange(36, 44));
    lemma_be_bytes_of_be_value(header.subrange(8, 10));
    lemma_be_bytes_of_be_value(header.subrange(10, 12));
    lemma_be_bytes_of_be_value(header.subrange(12, 20));
    lemma_be_bytes_of_be_value(header.subrange(20, 36));
    lemma_be_bytes_of_be_value(header.subrange(36, 44));
    assert(header =~= header.subrange(0, 8) + header.subrange(8, 10) + header.subrange(10, 12)
        + header.subrange(12, 20) + header.subrange(20, 36) + header.subrange(36, 44)
        + header.subrange(44, 76));
    assert(header =~= recovery_header_bytes(id, revision, payload));
}

/// Where a committed record of the log is found, a record stands that was written, with the entry
/// that is read of it.
pub proof fn only_recorded_entries_are_found(file: Seq<u8>, position: int)
    requires
        0 <= position <= file.len(),
    ensures
        log_frame_at(file, position) matches LogFrameAt::Complete { end } ==> {
            let entry = entry_between(file, position, end);
            &&& position < end <= file.len()
            &&& 0 < entry.payload.len() <= MAXIMUM_RECOVERY_PAYLOAD_BYTES
            &&& file.subrange(position, end) == recovery_frame_bytes(
                entry.recovery_id,
                entry.revision,
                entry.payload,
            )
        },
{
    if let LogFrameAt::Complete { end } = log_frame_at(file, position) {
        reveal(recovery_header_fault);
        let rest = file.subrange(position, file.len() as int);
        let header = rest.subrange(0, RECOVERY_HEADER_BYTES as int);
        let payload_end = RECOVERY_HEADER_BYTES + be_value(header.subrange(12, 20));
        let payload = rest.subrange(RECOVERY_HEADER_BYTES as int, payload_end);
        let footer = rest.subrange(payload_end, end - position);
        only_written_records_are_accepted(header, payload, footer);
        assert(file.subrange(position, end) =~= header + payload + footer);
        let entry = entry_between(file, position, end);
        assert(entry.payload =~= payload);
        assert(file.subrange(position, position + RECOVERY_HEADER_BYTES) =~= header);
    }
}

} // verus!
