//! The framing of one batch in the spool: a header that pins the batch's metadata, the body, and a
//! footer that commits both.

use vstd::prelude::*;

use crate::calendar::utc_representable;
use crate::codec::{
    be_bytes, be_limit, be_signed_value, be_value, copy_range, lemma_be_bytes_len,
    lemma_be_bytes_of_be_value, lemma_be_bytes_wraps, lemma_be_limits,
    lemma_be_signed_value_of_be_bytes, lemma_be_value_bound, lemma_be_value_of_be_bytes, matches_at,
    push_be, push_be_i64, push_bytes, read_be, read_be_i64,
};
use crate::digest::{blake3_digest, digest_of_pair};
use crate::identity::{
    is_uuid_v7, BatchId, IngestionProfileRevisionId, InputId, SchemaId, SourceId,
};
use crate::ingestion::error::{SpoolCorruption, SpoolError, SpoolInvariant};
use crate::ingestion::model::{
    AppendBodyLimit, BatchByteSize, BatchMetadata, BodyDigest, IngestionTime,
    PinnedCatalogIdentities,
};

verus! {

pub const FORMAT_VERSION: u16 = 1;

pub const HEADER_BYTES: usize = 148;

pub const FOOTER_BYTES: usize = 48;

pub const FRAME_OVERHEAD_BYTES: u64 = 196;

/// `ELUCSP01`, with which every frame begins.
pub open spec fn frame_magic() -> Seq<u8> {
    seq![69u8, 76u8, 85u8, 67u8, 83u8, 80u8, 48u8, 49u8]
}

/// `ELUCCM01`, which marks the footer of a frame.
pub open spec fn commit_magic() -> Seq<u8> {
    seq![69u8, 76u8, 85u8, 67u8, 67u8, 77u8, 48u8, 49u8]
}

fn frame_magic_bytes() -> (r: [u8; 8])
    ensures
        r@ == frame_magic(),
{
    let bytes: [u8; 8] = [69u8, 76u8, 85u8, 67u8, 83u8, 80u8, 48u8, 49u8];
    assert(bytes@ =~= frame_magic());
    bytes
}

fn commit_magic_bytes() -> (r: [u8; 8])
    ensures
        r@ == commit_magic(),
{
    let bytes: [u8; 8] = [69u8, 76u8, 85u8, 67u8, 67u8, 77u8, 48u8, 49u8];
    assert(bytes@ =~= commit_magic());
    bytes
}

/// The fixed part of a header: magic, version, header length, frame length and body length.
pub open spec fn framing_bytes(body_bytes: int) -> Seq<u8> {
    frame_magic() + be_bytes(FORMAT_VERSION as int, 2) + be_bytes(HEADER_BYTES as int, 2)
        + be_bytes(body_bytes + FRAME_OVERHEAD_BYTES, 8) + be_bytes(body_bytes, 8)
}

/// The metadata part of a header.
pub open(crate) spec fn metadata_bytes(metadata: BatchMetadata) -> Seq<u8> {
    be_bytes(metadata.batch_id.value as int, 16) + be_bytes(
        metadata.catalog.source_id.value as int,
        16,
    ) + be_bytes(metadata.catalog.input_id.value as int, 16) + be_bytes(
        metadata.catalog.profile_revision_id.value as int,
        16,
    ) + be_bytes(metadata.catalog.target_schema_id.value as int, 16) + be_bytes(
        metadata.ingestion_time.milliseconds as int,
        8,
    )
}

/// The header of a batch.
pub open(crate) spec fn header_bytes(metadata: BatchMetadata, body: Seq<u8>) -> Seq<u8> {
    framing_bytes(body.len() as int) + metadata_bytes(metadata) + blake3_digest(body)@
}

/// The footer of a frame with this header and body.
pub open spec fn footer_bytes(header: Seq<u8>, body: Seq<u8>) -> Seq<u8> {
    blake3_digest(header + body)@ + commit_magic() + be_bytes(
        body.len() + FRAME_OVERHEAD_BYTES,
        8,
    )
}

/// The whole frame of a batch.
#[verifier::opaque]
pub open(crate) spec fn frame_bytes(metadata: BatchMetadata, body: Seq<u8>) -> Seq<u8> {
    header_bytes(metadata, body) + body + footer_bytes(header_bytes(metadata, body), body)
}

/// The number that a field of a header spells.
pub open spec fn header_field(header: Seq<u8>, start: int, end: int) -> int {
    be_value(header.subrange(start, end))
}

/// The length of the frame that a header announces.
pub open spec fn announced_frame_bytes(header: Seq<u8>) -> int {
    header_field(header, 12, 20)
}

/// The length of the body that a header announces.
pub open spec fn announced_body_bytes(header: Seq<u8>) -> int {
    header_field(header, 20, 28)
}

/// The first thing that keeps `header` from being the header of a batch.
#[verifier::opaque]
pub open spec fn header_fault(header: Seq<u8>, body_limit: u64) -> Option<SpoolCorruption> {
    if header.subrange(0, 8) != frame_magic() {
        Some(SpoolCorruption::FrameMagic)
    } else if header_field(header, 8, 10) != FORMAT_VERSION {
        Some(SpoolCorruption::FrameVersion)
    } else if header_field(header, 10, 12) != HEADER_BYTES {
        Some(SpoolCorruption::FrameHeaderLength)
    } else if announced_frame_bytes(header) != announced_body_bytes(header) + FRAME_OVERHEAD_BYTES {
        Some(SpoolCorruption::FrameLength)
    } else if announced_body_bytes(header) > body_limit {
        Some(SpoolCorruption::FrameBodyLength)
    } else if !is_uuid_v7(header_field(header, 28, 44) as u128) {
        Some(SpoolCorruption::FrameBatchIdentity)
    } else if !is_uuid_v7(header_field(header, 44, 60) as u128) {
        Some(SpoolCorruption::FrameSourceIdentity)
    } else if !is_uuid_v7(header_field(header, 60, 76) as u128) {
        Some(SpoolCorruption::FrameInputIdentity)
    } else if !is_uuid_v7(header_field(header, 76, 92) as u128) {
        Some(SpoolCorruption::FrameProfileIdentity)
    } else if !is_uuid_v7(header_field(header, 92, 108) as u128) {
        Some(SpoolCorruption::FrameSchemaIdentity)
    } else if !utc_representable(be_signed_value(header.subrange(108, 116))) {
        Some(SpoolCorruption::FrameIngestionTime)
    } else {
        None
    }
}

/// The metadata that a header spells.
pub open(crate) spec fn header_metadata(header: Seq<u8>) -> BatchMetadata {
    BatchMetadata {
        batch_id: BatchId { value: header_field(header, 28, 44) as u128 },
        catalog: PinnedCatalogIdentities {
            source_id: SourceId { value: header_field(header, 44, 60) as u128 },
            input_id: InputId { value: header_field(header, 60, 76) as u128 },
            profile_revision_id: IngestionProfileRevisionId {
                value: header_field(header, 76, 92) as u128,
            },
            target_schema_id: SchemaId { value: header_field(header, 92, 108) as u128 },
        },
        ingestion_time: IngestionTime {
            milliseconds: be_signed_value(header.subrange(108, 116)) as i64,
        },
    }
}

/// Whether the bytes behind a header are not the body and the footer that it announces.
pub open spec fn frame_fault(header: Seq<u8>, body: Seq<u8>, footer: Seq<u8>) -> Option<
    SpoolCorruption,
> {
    if blake3_digest(body)@ != header.subrange(116, 148) {
        Some(SpoolCorruption::BodyDigest)
    } else if footer != footer_bytes(header, body) {
        Some(SpoolCorruption::CommitFooter)
    } else {
        None
    }
}

/// The first thing that keeps `prefix`, which is shorter than a header, from being the beginning
/// of one.
#[verifier::opaque]
pub open spec fn prefix_fault(prefix: Seq<u8>, body_limit: u64) -> Option<SpoolCorruption> {
    let magic_bytes: int = if prefix.len() < 8 {
        prefix.len() as int
    } else {
        8
    };
    if prefix.subrange(0, magic_bytes) != frame_magic().subrange(0, magic_bytes) {
        Some(SpoolCorruption::IncompletePrefix)
    } else if prefix.len() >= 10 && header_field(prefix, 8, 10) != FORMAT_VERSION {
        Some(SpoolCorruption::IncompleteVersion)
    } else if prefix.len() >= 12 && header_field(prefix, 10, 12) != HEADER_BYTES {
        Some(SpoolCorruption::IncompleteFraming)
    } else if prefix.len() >= 20 && !(FRAME_OVERHEAD_BYTES <= announced_frame_bytes(prefix)
        <= body_limit + FRAME_OVERHEAD_BYTES) {
        Some(SpoolCorruption::IncompleteLength)
    } else if prefix.len() >= 28 && announced_frame_bytes(prefix) != announced_body_bytes(prefix)
        + FRAME_OVERHEAD_BYTES {
        Some(SpoolCorruption::IncompleteLength)
    } else {
        None
    }
}

/// A batch made ready to be written around its body.
#[derive(Debug)]
pub struct PreparedFrame {
    pub header: Vec<u8>,
    pub footer: Vec<u8>,
    pub body_bytes: BatchByteSize,
    pub body_digest: BodyDigest,
    pub stored_bytes: u64,
}

impl PreparedFrame {
    /// Whether this is the frame of a batch with this metadata and body.
    pub open(crate) spec fn frames(self, metadata: BatchMetadata, body: Seq<u8>) -> bool {
        &&& self.header@ == header_bytes(metadata, body)
        &&& self.footer@ == footer_bytes(header_bytes(metadata, body), body)
        &&& self.body_bytes.value == body.len()
        &&& self.body_digest.bytes == blake3_digest(body)
        &&& self.stored_bytes == body.len() + FRAME_OVERHEAD_BYTES
    }

    pub fn new(metadata: BatchMetadata, body: &[u8]) -> (r: Result<Self, SpoolError>)
        ensures
            match r {
                Ok(frame) => body@.len() + FRAME_OVERHEAD_BYTES <= u64::MAX && frame.frames(
                    metadata,
                    body@,
                ) && frame.header@.len() == HEADER_BYTES && frame.footer@.len() == FOOTER_BYTES,
                Err(e) => body@.len() + FRAME_OVERHEAD_BYTES > u64::MAX && e
                    == SpoolError::spec_unavailable(SpoolInvariant::FrameLengthOverflow),
            },
    {
        broadcast use lemma_be_bytes_len;

        let body_length: u64 = body.len() as u64;
        let stored_length: u64 = match body_length.checked_add(FRAME_OVERHEAD_BYTES) {
            Some(length) => length,
            None => {
                return Err(SpoolError::unavailable(SpoolInvariant::FrameLengthOverflow));
            },
        };
        let body_digest: BodyDigest = BodyDigest::calculate(body);

        let mut header: Vec<u8> = Vec::with_capacity(HEADER_BYTES);
        push_bytes(&mut header, &frame_magic_bytes());
        push_be(&mut header, FORMAT_VERSION as u128, 2);
        push_be(&mut header, HEADER_BYTES as u128, 2);
        push_be(&mut header, stored_length as u128, 8);
        push_be(&mut header, body_length as u128, 8);
        assert(header@ =~= framing_bytes(body@.len() as int));
        push_be(&mut header, metadata.batch_id.as_u128(), 16);
        push_be(&mut header, metadata.catalog.source_id.as_u128(), 16);
        push_be(&mut header, metadata.catalog.input_id.as_u128(), 16);
        push_be(&mut header, metadata.catalog.profile_revision_id.as_u128(), 16);
        push_be(&mut header, metadata.catalog.target_schema_id.as_u128(), 16);
        push_be_i64(&mut header, metadata.ingestion_time.unix_milliseconds());
        assert(header@ =~= framing_bytes(body@.len() as int) + metadata_bytes(metadata));
        push_bytes(&mut header, body_digest.as_bytes());
        assert(header@ =~= header_bytes(metadata, body@));

        let frame_digest: [u8; 32] = digest_of_pair(header.as_slice(), body);
        let mut footer: Vec<u8> = Vec::with_capacity(FOOTER_BYTES);
        push_bytes(&mut footer, &frame_digest);
        push_bytes(&mut footer, &commit_magic_bytes());
        push_be(&mut footer, stored_length as u128, 8);
        assert(footer@ =~= footer_bytes(header@, body@));
        Ok(
            PreparedFrame {
                header,
                footer,
                body_bytes: BatchByteSize::new(body_length),
                body_digest,
                stored_bytes: stored_length,
            },
        )
    }

    pub fn header(&self) -> (r: &[u8])
        ensures
            r@ == self.header@,
    {
        self.header.as_slice()
    }

    pub fn footer(&self) -> (r: &[u8])
        ensures
            r@ == self.footer@,
    {
        self.footer.as_slice()
    }

    pub fn body_bytes(&self) -> (r: BatchByteSize)
        ensures
            r == self.body_bytes,
    {
        self.body_bytes
    }

    pub fn body_digest(&self) -> (r: BodyDigest)
        ensures
            r == self.body_digest,
    {
        self.body_digest
    }

    pub fn stored_bytes(&self) -> (r: u64)
        ensures
            r == self.stored_bytes,
    {
        self.stored_bytes
    }
}

/// The spool bytes that a batch with a body of up to `limit` bytes can occupy.
pub fn reserved_frame_bytes(limit: AppendBodyLimit) -> (r: Result<u64, SpoolError>)
    ensures
        match r {
            Ok(bytes) => bytes == limit.spec_get() + FRAME_OVERHEAD_BYTES,
            Err(e) => limit.spec_get() + FRAME_OVERHEAD_BYTES > u64::MAX && e
                == SpoolError::spec_unavailable(SpoolInvariant::ReservationSizeOverflow),
        },
{
    match limit.get().checked_add(FRAME_OVERHEAD_BYTES) {
        Some(bytes) => Ok(bytes),
        None => Err(SpoolError::unavailable(SpoolInvariant::ReservationSizeOverflow)),
    }
}

/// A header that was read back.
#[derive(Debug)]
pub struct FrameHeader {
    pub raw: Vec<u8>,
    pub metadata: BatchMetadata,
    pub body_bytes: BatchByteSize,
    pub stored_bytes: u64,
}

impl FrameHeader {
    /// Whether this is what `header` spells.
    pub open(crate) spec fn describes(self, header: Seq<u8>) -> bool {
        &&& header.len() == HEADER_BYTES
        &&& self.raw@ == header
        &&& self.metadata == header_metadata(header)
        &&& self.body_bytes.value == announced_body_bytes(header)
        &&& self.stored_bytes == announced_frame_bytes(header)
        &&& self.stored_bytes == self.body_bytes.value + FRAME_OVERHEAD_BYTES
    }
}

/// Reads a header back.
pub fn decode_header(raw: &[u8], body_limit: AppendBodyLimit) -> (r: Result<
    FrameHeader,
    SpoolError,
>)
    requires
        raw@.len() == HEADER_BYTES,
    ensures
        match r {
            Ok(header) => header_fault(raw@, body_limit.spec_get()) is None && header.describes(
                raw@,
            ) && header.body_bytes.value <= body_limit.spec_get(),
            Err(e) => header_fault(raw@, body_limit.spec_get()) matches Some(fault) && e
                == SpoolError::spec_corrupt(fault),
        },
{
    proof {
        reveal(header_fault);
        lemma_be_limits();
    }
    if !matches_at(raw, 0, &frame_magic_bytes()) {
        return Err(SpoolError::corrupt(SpoolCorruption::FrameMagic));
    }
    if read_be(raw, 8, 10) != FORMAT_VERSION as u128 {
        return Err(SpoolError::corrupt(SpoolCorruption::FrameVersion));
    }
    if read_be(raw, 10, 12) != HEADER_BYTES as u128 {
        return Err(SpoolError::corrupt(SpoolCorruption::FrameHeaderLength));
    }
    let stored_bytes: u128 = read_be(raw, 12, 20);
    let body_bytes: u128 = read_be(raw, 20, 28);
    if stored_bytes != body_bytes + FRAME_OVERHEAD_BYTES as u128 {
        return Err(SpoolError::corrupt(SpoolCorruption::FrameLength));
    }
    if body_bytes > body_limit.get() as u128 {
        return Err(SpoolError::corrupt(SpoolCorruption::FrameBodyLength));
    }
    let batch_id: BatchId = match BatchId::new(read_be(raw, 28, 44)) {
        Ok(id) => id,
        Err(_) => {
            return Err(SpoolError::corrupt(SpoolCorruption::FrameBatchIdentity));
        },
    };
    let source_id: SourceId = match SourceId::new(read_be(raw, 44, 60)) {
        Ok(id) => id,
        Err(_) => {
            return Err(SpoolError::corrupt(SpoolCorruption::FrameSourceIdentity));
        },
    };
    let input_id: InputId = match InputId::new(read_be(raw, 60, 76)) {
        Ok(id) => id,
        Err(_) => {
            return Err(SpoolError::corrupt(SpoolCorruption::FrameInputIdentity));
        },
    };
    let profile_revision_id: IngestionProfileRevisionId =
        match IngestionProfileRevisionId::new(read_be(raw, 76, 92)) {
        Ok(id) => id,
        Err(_) => {
            return Err(SpoolError::corrupt(SpoolCorruption::FrameProfileIdentity));
        },
    };
    let target_schema_id: SchemaId = match SchemaId::new(read_be(raw, 92, 108)) {
        Ok(id) => id,
        Err(_) => {
            return Err(SpoolError::corrupt(SpoolCorruption::FrameSchemaIdentity));
        },
    };
    let ingestion_time: IngestionTime =
        match IngestionTime::from_unix_milliseconds(read_be_i64(raw, 108)) {
        Ok(time) => time,
        Err(_) => {
            return Err(SpoolError::corrupt(SpoolCorruption::FrameIngestionTime));
        },
    };
    let header: FrameHeader = FrameHeader {
        raw: copy_range(raw, 0, HEADER_BYTES),
        metadata: BatchMetadata {
            batch_id,
            catalog: PinnedCatalogIdentities {
                source_id,
                input_id,
                profile_revision_id,
                target_schema_id,
            },
            ingestion_time,
        },
        body_bytes: BatchByteSize { value: body_bytes as u64 },
        stored_bytes: stored_bytes as u64,
    };
    assert(header.raw@ =~= raw@);
    Ok(header)
}

/// Tests whether fewer bytes than a header holds can be the beginning of one.
pub fn validate_incomplete_header(prefix: &[u8], body_limit: AppendBodyLimit) -> (r: Result<
    (),
    SpoolError,
>)
    requires
        prefix@.len() < HEADER_BYTES,
    ensures
        match r {
            Ok(_) => prefix_fault(prefix@, body_limit.spec_get()) is None,
            Err(e) => prefix_fault(prefix@, body_limit.spec_get()) matches Some(fault) && e
                == SpoolError::spec_corrupt(fault),
        },
{
    proof {
        reveal(prefix_fault);
        lemma_be_limits();
    }
    let magic: [u8; 8] = frame_magic_bytes();
    let magic_bytes: usize = if prefix.len() < 8 {
        prefix.len()
    } else {
        8
    };
    if !matches_at(prefix, 0, vstd::slice::slice_subrange(&magic, 0, magic_bytes)) {
        return Err(SpoolError::corrupt(SpoolCorruption::IncompletePrefix));
    }
    if prefix.len() >= 10 && read_be(prefix, 8, 10) != FORMAT_VERSION as u128 {
        return Err(SpoolError::corrupt(SpoolCorruption::IncompleteVersion));
    }
    if prefix.len() >= 12 && read_be(prefix, 10, 12) != HEADER_BYTES as u128 {
        return Err(SpoolError::corrupt(SpoolCorruption::IncompleteFraming));
    }
    if prefix.len() >= 20 {
        let stored_bytes: u128 = read_be(prefix, 12, 20);
        let overhead: u128 = FRAME_OVERHEAD_BYTES as u128;
        if stored_bytes < overhead || stored_bytes > body_limit.get() as u128 + overhead {
            return Err(SpoolError::corrupt(SpoolCorruption::IncompleteLength));
        }
        if prefix.len() >= 28 && stored_bytes != read_be(prefix, 20, 28) + overhead {
            return Err(SpoolError::corrupt(SpoolCorruption::IncompleteLength));
        }
    }
    Ok(())
}

/// Tests the digests and the footer of a frame against its header.
pub fn validate_digests_and_footer(
    header: &FrameHeader,
    body_digest: [u8; 32],
    frame_digest: [u8; 32],
    footer: &[u8],
) -> (r: Result<(), SpoolError>)
    requires
        header.raw@.len() == HEADER_BYTES,
        footer@.len() == FOOTER_BYTES,
    ensures
        match r {
            Ok(_) => {
                &&& body_digest@ == header.raw@.subrange(116, 148)
                &&& footer@ == frame_digest@ + commit_magic() + be_bytes(
                    header.stored_bytes as int,
                    8,
                )
            },
            Err(e) => e == SpoolError::spec_corrupt(
                if body_digest@ != header.raw@.subrange(116, 148) {
                    SpoolCorruption::BodyDigest
                } else {
                    SpoolCorruption::CommitFooter
                },
            ) && (body_digest@ == header.raw@.subrange(116, 148) ==> footer@ != frame_digest@
                + commit_magic() + be_bytes(header.stored_bytes as int, 8)),
        },
{
    broadcast use lemma_be_bytes_len;

    if !matches_at(header.raw.as_slice(), 116, &body_digest) {
        return Err(SpoolError::corrupt(SpoolCorruption::BodyDigest));
    }
    let mut expected: Vec<u8> = Vec::with_capacity(FOOTER_BYTES);
    push_bytes(&mut expected, &frame_digest);
    push_bytes(&mut expected, &commit_magic_bytes());
    push_be(&mut expected, header.stored_bytes as u128, 8);
    let matching: bool = matches_at(footer, 0, expected.as_slice());
    assert(footer@.subrange(0, 48) =~= footer@);
    if matching {
        Ok(())
    } else {
        Err(SpoolError::corrupt(SpoolCorruption::CommitFooter))
    }
}

/// Whether a batch's identities and instant are valid ones.
pub open(crate) spec fn metadata_valid(metadata: BatchMetadata) -> bool {
    &&& metadata.batch_id.valid()
    &&& metadata.catalog.source_id.valid()
    &&& metadata.catalog.input_id.valid()
    &&& metadata.catalog.profile_revision_id.valid()
    &&& metadata.catalog.target_schema_id.valid()
    &&& metadata.ingestion_time.valid()
}

/// Where each field of a header stands.
proof fn lemma_header_layout(metadata: BatchMetadata, body: Seq<u8>)
    ensures
        ({
            let header = header_bytes(metadata, body);
            &&& header.len() == HEADER_BYTES
            &&& header.subrange(0, 8) == frame_magic()
            &&& header.subrange(8, 10) == be_bytes(FORMAT_VERSION as int, 2)
            &&& header.subrange(10, 12) == be_bytes(HEADER_BYTES as int, 2)
            &&& header.subrange(12, 20) == be_bytes(body.len() + FRAME_OVERHEAD_BYTES, 8)
            &&& header.subrange(20, 28) == be_bytes(body.len() as int, 8)
            &&& header.subrange(28, 44) == be_bytes(metadata.batch_id.value as int, 16)
            &&& header.subrange(44, 60) == be_bytes(metadata.catalog.source_id.value as int, 16)
            &&& header.subrange(60, 76) == be_bytes(metadata.catalog.input_id.value as int, 16)
            &&& header.subrange(76, 92) == be_bytes(
                metadata.catalog.profile_revision_id.value as int,
                16,
            )
            &&& header.subrange(92, 108) == be_bytes(
                metadata.catalog.target_schema_id.value as int,
                16,
            )
            &&& header.subrange(108, 116) == be_bytes(
                metadata.ingestion_time.milliseconds as int,
                8,
            )
            &&& header.subrange(116, 148) == blake3_digest(body)@
        }),
{
    broadcast use lemma_be_bytes_len;

    let header = header_bytes(metadata, body);
    let framing = framing_bytes(body.len() as int);
    let pinned = metadata_bytes(metadata);
    assert(header.subrange(0, 28) =~= framing);
    assert(header.subrange(28, 116) =~= pinned);
    assert(header.subrange(116, 148) =~= blake3_digest(body)@);
    assert(header.subrange(0, 8) =~= framing.subrange(0, 8));
    assert(header.subrange(0, 8) =~= frame_magic());
    assert(header.subrange(8, 10) =~= framing.subrange(8, 10));
    assert(header.subrange(8, 10) =~= be_bytes(FORMAT_VERSION as int, 2));
    assert(header.subrange(10, 12) =~= be_bytes(HEADER_BYTES as int, 2));
    assert(header.subrange(12, 20) =~= be_bytes(body.len() + FRAME_OVERHEAD_BYTES, 8));
    assert(header.subrange(20, 28) =~= be_bytes(body.len() as int, 8));
    assert(header.subrange(28, 44) =~= be_bytes(metadata.batch_id.value as int, 16));
    assert(header.subrange(44, 60) =~= be_bytes(metadata.catalog.source_id.value as int, 16));
    assert(header.subrange(60, 76) =~= be_bytes(metadata.catalog.input_id.value as int, 16));
    assert(header.subrange(76, 92) =~= be_bytes(
        metadata.catalog.profile_revision_id.value as int,
        16,
    ));
    assert(header.subrange(92, 108) =~= be_bytes(
        metadata.catalog.target_schema_id.value as int,
        16,
    ));
    assert(header.subrange(108, 116) =~= be_bytes(metadata.ingestion_time.milliseconds as int, 8));
}

/// Reading a header back gives the metadata and the body length that it was written with.
pub proof fn header_reads_back(metadata: BatchMetadata, body: Seq<u8>, body_limit: u64)
    requires
        metadata_valid(metadata),
        body.len() <= body_limit,
        body.len() + FRAME_OVERHEAD_BYTES <= u64::MAX,
    ensures
        header_bytes(metadata, body).len() == HEADER_BYTES,
        header_fault(header_bytes(metadata, body), body_limit) is None,
        header_metadata(header_bytes(metadata, body)) == metadata,
        announced_body_bytes(header_bytes(metadata, body)) == body.len(),
        announced_frame_bytes(header_bytes(metadata, body)) == body.len() + FRAME_OVERHEAD_BYTES,
{
    reveal(header_fault);
    lemma_be_limits();
    lemma_header_layout(metadata, body);
    lemma_be_value_of_be_bytes(FORMAT_VERSION as int, 2);
    lemma_be_value_of_be_bytes(HEADER_BYTES as int, 2);
    lemma_be_value_of_be_bytes(body.len() + FRAME_OVERHEAD_BYTES, 8);
    lemma_be_value_of_be_bytes(body.len() as int, 8);
    lemma_be_value_of_be_bytes(metadata.batch_id.value as int, 16);
    lemma_be_value_of_be_bytes(metadata.catalog.source_id.value as int, 16);
    lemma_be_value_of_be_bytes(metadata.catalog.input_id.value as int, 16);
    lemma_be_value_of_be_bytes(metadata.catalog.profile_revision_id.value as int, 16);
    lemma_be_value_of_be_bytes(metadata.catalog.target_schema_id.value as int, 16);
    lemma_be_signed_value_of_be_bytes(metadata.ingestion_time.milliseconds as int, 8);
}

/// The body and the footer that were written behind a header are accepted behind it.
pub proof fn frame_reads_back(metadata: BatchMetadata, body: Seq<u8>)
    ensures
        frame_fault(
            header_bytes(metadata, body),
            body,
            footer_bytes(header_bytes(metadata, body), body),
        ) is None,
        frame_bytes(metadata, body).len() == body.len() + FRAME_OVERHEAD_BYTES,
{
    broadcast use lemma_be_bytes_len;

    reveal(frame_bytes);
    lemma_header_layout(metadata, body);
}

/// The beginning of a header, however short, is accepted as an incomplete one.
pub proof fn header_prefix_is_accepted(
    metadata: BatchMetadata,
    body: Seq<u8>,
    body_limit: u64,
    length: int,
)
    requires
        metadata_valid(metadata),
        body.len() <= body_limit,
        body.len() + FRAME_OVERHEAD_BYTES <= u64::MAX,
        0 <= length < HEADER_BYTES,
    ensures
        prefix_fault(header_bytes(metadata, body).subrange(0, length), body_limit) is None,
{
    reveal(header_fault);
    reveal(prefix_fault);
    let header = header_bytes(metadata, body);
    let prefix = header.subrange(0, length);
    header_reads_back(metadata, body, body_limit);
    lemma_header_layout(metadata, body);
    let magic_bytes: int = if length < 8 {
        length
    } else {
        8
    };
    assert(prefix.subrange(0, magic_bytes) =~= header.subrange(0, 8).subrange(0, magic_bytes));
    if length >= 10 {
        assert(prefix.subrange(8, 10) =~= header.subrange(8, 10));
    }
    if length >= 12 {
        assert(prefix.subrange(10, 12) =~= header.subrange(10, 12));
    }
    if length >= 20 {
        assert(prefix.subrange(12, 20) =~= header.subrange(12, 20));
    }
    if length >= 28 {
        assert(prefix.subrange(20, 28) =~= header.subrange(20, 28));
    }
}

/// Nothing is accepted as a frame but what a batch is written as: the header, the body and the footer
/// of a batch with valid metadata and a body within the limit.
pub proof fn only_written_frames_are_accepted(
    header: Seq<u8>,
    body: Seq<u8>,
    footer: Seq<u8>,
    body_limit: u64,
)
    requires
        header.len() == HEADER_BYTES,
        header_fault(header, body_limit) is None,
        body.len() == announced_body_bytes(header),
        frame_fault(header, body, footer) is None,
    ensures
        metadata_valid(header_metadata(header)),
        body.len() <= body_limit,
        header == header_bytes(header_metadata(header), body),
        header + body + footer == frame_bytes(header_metadata(header), body),
{
    broadcast use lemma_be_bytes_len;

    reveal(header_fault);
    reveal(frame_bytes);
    lemma_be_limits();
    let metadata = header_metadata(header);
    lemma_field(header, 8, 10);
    lemma_field(header, 10, 12);
    lemma_field(header, 12, 20);
    lemma_field(header, 20, 28);
    lemma_field(header, 28, 44);
    lemma_field(header, 44, 60);
    lemma_field(header, 60, 76);
    lemma_field(header, 76, 92);
    lemma_field(header, 92, 108);
    lemma_signed_field(header.subrange(108, 116));
    let written = header_bytes(metadata, body);
    lemma_header_layout(metadata, body);
    assert(header.subrange(0, 8) == written.subrange(0, 8));
    assert(header.subrange(8, 10) == written.subrange(8, 10));
    assert(header.subrange(10, 12) == written.subrange(10, 12));
    assert(header.subrange(12, 20) == written.subrange(12, 20));
    assert(header.subrange(20, 28) == written.subrange(20, 28));
    assert(header.subrange(28, 44) == written.subrange(28, 44));
    assert(header.subrange(44, 60) == written.subrange(44, 60));
    assert(header.subrange(60, 76) == written.subrange(60, 76));
    assert(header.subrange(76, 92) == written.subrange(76, 92));
    assert(header.subrange(92, 108) == written.subrange(92, 108));
    assert(header.subrange(108, 116) == written.subrange(108, 116));
    assert(header.subrange(116, 148) == written.subrange(116, 148));
    lemma_parts(header);
    lemma_parts(written);
    assert(header == written);
}

proof fn lemma_field(header: Seq<u8>, start: int, end: int)
    requires
        0 <= start <= end <= header.len(),
    ensures
        be_bytes(header_field(header, start, end), (end - start) as nat) == header.subrange(
            start,
            end,
        ),
        0 <= header_field(header, start, end) < be_limit((end - start) as nat),
{
    lemma_be_bytes_of_be_value(header.subrange(start, end));
    lemma_be_value_bound(header.subrange(start, end));
}

proof fn lemma_signed_field(bytes: Seq<u8>)
    requires
        bytes.len() == 8,
    ensures
        be_bytes(be_signed_value(bytes), 8) == bytes,
        i64::MIN <= be_signed_value(bytes) <= i64::MAX,
{
    lemma_be_limits();
    lemma_be_bytes_of_be_value(bytes);
    lemma_be_value_bound(bytes);
    lemma_be_bytes_wraps(be_value(bytes) - be_limit(8), 8);
}

proof fn lemma_parts(header: Seq<u8>)
    requires
        header.len() == HEADER_BYTES,
    ensures
        header == header.subrange(0, 8) + header.subrange(8, 10) + header.subrange(10, 12)
            + header.subrange(12, 20) + header.subrange(20, 28) + header.subrange(28, 44)
            + header.subrange(44, 60) + header.subrange(60, 76) + header.subrange(76, 92)
            + header.subrange(92, 108) + header.subrange(108, 116) + header.subrange(116, 148),
{
    assert(header =~= header.subrange(0, 8) + header.subrange(8, 10) + header.subrange(10, 12)
        + header.subrange(12, 20) + header.subrange(20, 28) + header.subrange(28, 44)
        + header.subrange(44, 60) + header.subrange(60, 76) + header.subrange(76, 92)
        + header.subrange(92, 108) + header.subrange(108, 116) + header.subrange(116, 148));
}

} // verus!
