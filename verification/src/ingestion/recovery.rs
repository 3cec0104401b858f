//! Recovery of committed batches from spool data.

use vstd::prelude::*;

use crate::codec::{copy_range, lemma_be_value_bound};
use crate::digest::{blake3_digest, digest, digest_of_pair};
use crate::ingestion::error::{SpoolCorruption, SpoolError, SpoolInvariant};
use crate::ingestion::frame::{
    announced_body_bytes, announced_frame_bytes, decode_header, footer_bytes, frame_bytes,
    frame_fault, frame_reads_back, header_bytes, header_fault, header_metadata,
    header_prefix_is_accepted, header_reads_back, metadata_valid, only_written_frames_are_accepted,
    prefix_fault,
    reserved_frame_bytes, validate_digests_and_footer, validate_incomplete_header, FrameHeader,
    FOOTER_BYTES, FRAME_OVERHEAD_BYTES, HEADER_BYTES,
};
use crate::ingestion::model::{
    remaining_capacity, AppendBodyLimit, BatchMetadata, BodyDigest, MaximumBatchAdmission,
    RecoveredBatch, RecoveryReport, SpoolBatchRange, SpoolCapacity, SpoolCheckpoint,
};

verus! {

/// What stands at a position of the spool data.
pub enum FrameAt {
    /// A committed frame that ends at `end`.
    Complete { end: int },
    /// The beginning of an append that was never completed.
    Torn,
    /// Bytes that no append leaves behind.
    Corrupt(SpoolCorruption),
}

/// Reads the frame that begins at `position`.
#[verifier::opaque]
pub open spec fn frame_at(file: Seq<u8>, position: int, body_limit: u64) -> FrameAt {
    let rest = file.subrange(position, file.len() as int);
    if rest.len() < HEADER_BYTES {
        match prefix_fault(rest, body_limit) {
            Some(fault) => FrameAt::Corrupt(fault),
            None => FrameAt::Torn,
        }
    } else {
        let header = rest.subrange(0, HEADER_BYTES as int);
        let stored = announced_frame_bytes(header);
        match header_fault(header, body_limit) {
            Some(fault) => FrameAt::Corrupt(fault),
            None => if position + stored > u64::MAX {
                FrameAt::Corrupt(SpoolCorruption::FramePosition)
            } else if stored > rest.len() {
                FrameAt::Torn
            } else {
                match frame_fault(
                    header,
                    rest.subrange(HEADER_BYTES as int, stored - FOOTER_BYTES),
                    rest.subrange(stored - FOOTER_BYTES, stored),
                ) {
                    Some(fault) => FrameAt::Corrupt(fault),
                    None => FrameAt::Complete { end: position + stored },
                }
            },
        }
    }
}

/// A frame is longer than its framing.
pub proof fn lemma_frame_advances(file: Seq<u8>, position: int, body_limit: u64)
    requires
        0 <= position <= file.len(),
    ensures
        frame_at(file, position, body_limit) matches FrameAt::Complete { end } ==> position
            + FRAME_OVERHEAD_BYTES <= end <= file.len() && end <= u64::MAX,
{
    reveal(frame_at);
    reveal(header_fault);
    let rest = file.subrange(position, file.len() as int);
    if rest.len() >= HEADER_BYTES {
        lemma_be_value_bound(rest.subrange(0, HEADER_BYTES as int).subrange(20, 28));
    }
}

/// How far a scan has come.
#[derive(Clone, Copy, Debug, PartialEq, Eq, Structural)]
pub struct ScanProgress {
    pub position: u64,
    pub committed_batches: u64,
    pub pending_batches: u64,
    pub checkpoint_is_boundary: bool,
}

impl ScanProgress {
    /// The progress once the frame that ends at `end` has been passed.
    pub open spec fn advanced(self, end: int, checkpoint: u64) -> ScanProgress {
        ScanProgress {
            position: end as u64,
            committed_batches: (self.committed_batches + 1) as u64,
            pending_batches: if self.position >= checkpoint {
                (self.pending_batches + 1) as u64
            } else {
                self.pending_batches
            },
            checkpoint_is_boundary: self.checkpoint_is_boundary || end == checkpoint,
        }
    }

    /// No more batches have been passed than bytes.
    pub open spec fn bounded(self) -> bool {
        self.pending_batches <= self.committed_batches <= self.position
    }
}

/// The progress of a scan that has not begun.
pub open spec fn scan_start(checkpoint: u64) -> ScanProgress {
    ScanProgress {
        position: 0,
        committed_batches: 0,
        pending_batches: 0,
        checkpoint_is_boundary: checkpoint == 0,
    }
}

/// What a scan of the spool data found.
#[derive(Clone, Copy, Debug, PartialEq, Eq, Structural)]
pub struct FrameScan {
    pub committed_batches: u64,
    pub pending_batches: u64,
    pub committed_bytes: u64,
    pub discarded_tail_bytes: u64,
}

/// The outcome of a scan that passed its last committed frame.
pub open spec fn scan_outcome(progress: ScanProgress, checkpoint: u64, tail: int) -> Result<
    FrameScan,
    SpoolError,
> {
    if checkpoint > progress.position || !progress.checkpoint_is_boundary {
        Err(SpoolError::spec_corrupt(SpoolCorruption::CheckpointBoundary))
    } else {
        Ok(
            FrameScan {
                committed_batches: progress.committed_batches,
                pending_batches: progress.pending_batches,
                committed_bytes: progress.position,
                discarded_tail_bytes: tail as u64,
            },
        )
    }
}

/// The outcome of scanning the rest of the spool data.
pub open spec fn scan_from(
    file: Seq<u8>,
    checkpoint: u64,
    body_limit: u64,
    progress: ScanProgress,
) -> Result<FrameScan, SpoolError>
    decreases file.len() - progress.position,
{
    if progress.position >= file.len() {
        scan_outcome(progress, checkpoint, 0)
    } else {
        match frame_at(file, progress.position as int, body_limit) {
            FrameAt::Corrupt(fault) => Err(SpoolError::spec_corrupt(fault)),
            FrameAt::Torn => scan_outcome(progress, checkpoint, file.len() - progress.position),
            FrameAt::Complete { end } => {
                proof {
                    lemma_frame_advances(file, progress.position as int, body_limit);
                }
                scan_from(file, checkpoint, body_limit, progress.advanced(end, checkpoint))
            },
        }
    }
}

/// A range of the spool data that is to be read next.
#[derive(Clone, Copy, Debug, PartialEq, Eq, Structural)]
pub struct SpoolRead {
    pub start: u64,
    pub length: u64,
}

/// A scan of spool data that is read piece by piece. The scanner says which range it needs next
/// and is handed the bytes of that range.
#[derive(Debug)]
pub struct FrameScanner {
    pub file_bytes: u64,
    pub checkpoint: SpoolCheckpoint,
    pub body_limit: AppendBodyLimit,
    pub progress: ScanProgress,
    /// The header whose body and footer are to be read next.
    pub header: Option<FrameHeader>,
    /// The length of the incomplete append that ended the scan.
    pub tail: Option<u64>,
}

impl FrameScanner {
    pub open(crate) spec fn well_formed(self) -> bool {
        &&& self.progress.bounded()
        &&& self.progress.position <= self.file_bytes
        &&& self.tail matches Some(tail) ==> self.header is None && tail == self.file_bytes
            - self.progress.position
        &&& self.header matches Some(header) ==> {
            &&& header.describes(header.raw@)
            &&& header.body_bytes.value <= self.body_limit.spec_get()
            &&& self.progress.position + header.stored_bytes <= self.file_bytes
        }
    }

    /// Whether two scanners scan the same spool data for the same purpose.
    pub open spec fn same_scan(self, other: FrameScanner) -> bool {
        &&& self.file_bytes == other.file_bytes
        &&& self.checkpoint == other.checkpoint
        &&& self.body_limit == other.body_limit
    }

    pub fn new(file_bytes: u64, checkpoint: SpoolCheckpoint, body_limit: AppendBodyLimit) -> (r:
        FrameScanner)
        ensures
            r.well_formed(),
            r.file_bytes == file_bytes,
            r.checkpoint == checkpoint,
            r.body_limit == body_limit,
            r.progress == scan_start(checkpoint.position),
            r.header is None,
            r.tail is None,
    {
        FrameScanner {
            file_bytes,
            checkpoint,
            body_limit,
            progress: ScanProgress {
                position: 0,
                committed_batches: 0,
                pending_batches: 0,
                checkpoint_is_boundary: checkpoint.position() == 0,
            },
            header: None,
            tail: None,
        }
    }

    /// The range that the scan needs next.
    pub open spec fn spec_next_read(self) -> Option<SpoolRead> {
        match self.header {
            Some(header) => Some(
                SpoolRead {
                    start: (self.progress.position + HEADER_BYTES) as u64,
                    length: (header.body_bytes.value + FOOTER_BYTES) as u64,
                },
            ),
            None => if self.tail is Some || self.progress.position == self.file_bytes {
                None
            } else {
                Some(
                    SpoolRead {
                        start: self.progress.position,
                        length: if self.file_bytes - self.progress.position < HEADER_BYTES {
                            (self.file_bytes - self.progress.position) as u64
                        } else {
                            HEADER_BYTES as u64
                        },
                    },
                )
            },
        }
    }

    /// The range to read next, or `None` once the scan is over. No range is longer than a header,
    /// or than a body with its footer.
    pub fn next_read(&self) -> (r: Option<SpoolRead>)
        requires
            self.well_formed(),
        ensures
            r == self.spec_next_read(),
            r matches Some(read) ==> read.start + read.length <= self.file_bytes,
            r matches Some(read) ==> read.length <= HEADER_BYTES || read.length
                <= self.body_limit.spec_get() + FOOTER_BYTES,
    {
        match &self.header {
            Some(header) => Some(
                SpoolRead {
                    start: self.progress.position + HEADER_BYTES as u64,
                    length: header.body_bytes.get() + FOOTER_BYTES as u64,
                },
            ),
            None => {
                let remaining: u64 = self.file_bytes - self.progress.position;
                if self.tail.is_some() || remaining == 0 {
                    None
                } else if remaining < HEADER_BYTES as u64 {
                    Some(SpoolRead { start: self.progress.position, length: remaining })
                } else {
                    Some(SpoolRead { start: self.progress.position, length: HEADER_BYTES as u64 })
                }
            },
        }
    }

    /// What handing over `bytes` leads to: a failure, or the state that `next` is in.
    pub open(crate) spec fn supplied(
        self,
        bytes: Seq<u8>,
        next: FrameScanner,
        outcome: Result<(), SpoolError>,
    ) -> bool {
        let remaining = self.file_bytes - self.progress.position;
        match self.header {
            None => if bytes.len() < HEADER_BYTES {
                match prefix_fault(bytes, self.body_limit.value) {
                    Some(fault) => outcome == Err::<(), SpoolError>(
                        SpoolError::spec_corrupt(fault),
                    ),
                    None => {
                        &&& outcome is Ok
                        &&& next.progress == self.progress
                        &&& next.header is None
                        &&& next.tail == Some(remaining as u64)
                    },
                }
            } else {
                match header_fault(bytes, self.body_limit.value) {
                    Some(fault) => outcome == Err::<(), SpoolError>(
                        SpoolError::spec_corrupt(fault),
                    ),
                    None => if self.progress.position + announced_frame_bytes(bytes) > u64::MAX {
                        outcome == Err::<(), SpoolError>(
                            SpoolError::spec_corrupt(SpoolCorruption::FramePosition),
                        )
                    } else if announced_frame_bytes(bytes) > remaining {
                        &&& outcome is Ok
                        &&& next.progress == self.progress
                        &&& next.header is None
                        &&& next.tail == Some(remaining as u64)
                    } else {
                        &&& outcome is Ok
                        &&& next.progress == self.progress
                        &&& next.header matches Some(header)
                        &&& header.describes(bytes)
                        &&& next.tail is None
                    },
                }
            },
            Some(header) => {
                let body = bytes.subrange(0, header.body_bytes.value as int);
                let footer = bytes.subrange(header.body_bytes.value as int, bytes.len() as int);
                match frame_fault(header.raw@, body, footer) {
                    Some(fault) => outcome == Err::<(), SpoolError>(
                        SpoolError::spec_corrupt(fault),
                    ),
                    None => {
                        &&& outcome is Ok
                        &&& next.progress == self.progress.advanced(
                            self.progress.position + header.stored_bytes,
                            self.checkpoint.position,
                        )
                        &&& next.header is None
                        &&& next.tail is None
                    },
                }
            },
        }
    }

    /// Takes the bytes of the range that was asked for. After a failure the scan cannot go on.
    pub fn supply(&mut self, bytes: &[u8]) -> (r: Result<(), SpoolError>)
        requires
            old(self).well_formed(),
            old(self).spec_next_read() matches Some(read) && bytes@.len() == read.length,
        ensures
            final(self).same_scan(*old(self)),
            old(self).supplied(bytes@, *final(self), r),
            r is Ok ==> final(self).well_formed(),
    {
        let mut awaited: Option<FrameHeader> = None;
        std::mem::swap(&mut awaited, &mut self.header);
        match awaited {
            None => {
                let remaining: u64 = self.file_bytes - self.progress.position;
                if bytes.len() < HEADER_BYTES {
                    match validate_incomplete_header(bytes, self.body_limit) {
                        Ok(_) => {
                            self.tail = Some(remaining);
                            Ok(())
                        },
                        Err(e) => Err(e),
                    }
                } else {
                    let header: FrameHeader = match decode_header(bytes, self.body_limit) {
                        Ok(header) => header,
                        Err(e) => {
                            return Err(e);
                        },
                    };
                    match self.progress.position.checked_add(header.stored_bytes) {
                        Some(frame_end) => {
                            if frame_end > self.file_bytes {
                                self.tail = Some(remaining);
                            } else {
                                self.header = Some(header);
                            }
                            Ok(())
                        },
                        None => Err(SpoolError::corrupt(SpoolCorruption::FramePosition)),
                    }
                }
            },
            Some(header) => {
                let body_bytes: usize = header.body_bytes.get() as usize;
                let body: &[u8] = vstd::slice::slice_subrange(bytes, 0, body_bytes);
                let footer: &[u8] = vstd::slice::slice_subrange(bytes, body_bytes, bytes.len());
                let body_digest: [u8; 32] = digest(body);
                let frame_digest: [u8; 32] = digest_of_pair(header.raw.as_slice(), body);
                match validate_digests_and_footer(&header, body_digest, frame_digest, footer) {
                    Ok(_) => {
                        let frame_end: u64 = self.progress.position + header.stored_bytes;
                        let checkpoint: u64 = self.checkpoint.position();
                        self.progress =
                        ScanProgress {
                            position: frame_end,
                            committed_batches: self.progress.committed_batches + 1,
                            pending_batches: if self.progress.position >= checkpoint {
                                self.progress.pending_batches + 1
                            } else {
                                self.progress.pending_batches
                            },
                            checkpoint_is_boundary: self.progress.checkpoint_is_boundary
                                || frame_end == checkpoint,
                        };
                        Ok(())
                    },
                    Err(e) => Err(e),
                }
            },
        }
    }

    /// What the scan found, once it is over.
    pub fn finish(&self) -> (r: Result<FrameScan, SpoolError>)
        requires
            self.well_formed(),
        ensures
            r == scan_outcome(
                self.progress,
                self.checkpoint.position,
                match self.tail {
                    Some(tail) => tail as int,
                    None => 0,
                },
            ),
    {
        let checkpoint: u64 = self.checkpoint.position();
        if checkpoint > self.progress.position || !self.progress.checkpoint_is_boundary {
            return Err(SpoolError::corrupt(SpoolCorruption::CheckpointBoundary));
        }
        Ok(
            FrameScan {
                committed_batches: self.progress.committed_batches,
                pending_batches: self.progress.pending_batches,
                committed_bytes: self.progress.position,
                discarded_tail_bytes: match self.tail {
                    Some(tail) => tail,
                    None => 0,
                },
            },
        )
    }
}

/// Scans spool data that is held in memory.
pub fn scan_committed_frames(
    file: &[u8],
    checkpoint: SpoolCheckpoint,
    body_limit: AppendBodyLimit,
) -> (r: Result<FrameScan, SpoolError>)
    ensures
        r == scan_from(
            file@,
            checkpoint.position,
            body_limit.spec_get(),
            scan_start(checkpoint.position),
        ),
{
    let total: usize = file.len();
    let mut scanner: FrameScanner = FrameScanner::new(total as u64, checkpoint, body_limit);
    loop
        invariant
            total == file@.len(),
            scanner.well_formed(),
            scanner.file_bytes == total,
            scanner.checkpoint == checkpoint,
            scanner.body_limit == body_limit,
            scanner.header is None,
            scanner.tail is None,
            scan_from(
                file@,
                checkpoint.position,
                body_limit.spec_get(),
                scan_start(checkpoint.position),
            ) == scan_from(
                file@,
                checkpoint.position,
                body_limit.spec_get(),
                scanner.progress,
            ),
        decreases total - scanner.progress.position,
    {
        let ghost progress = scanner.progress;
        let ghost position = progress.position as int;
        let ghost rest = file@.subrange(position, file@.len() as int);
        let first: SpoolRead = match scanner.next_read() {
            Some(read) => read,
            None => {
                return scanner.finish();
            },
        };
        let start: usize = first.start as usize;
        let middle: usize = start + first.length as usize;
        let head: &[u8] = vstd::slice::slice_subrange(file, start, middle);
        proof {
            reveal(frame_at);
            lemma_frame_advances(file@, position, body_limit.spec_get());
            assert(rest.subrange(0, head@.len() as int) =~= head@);
            assert(rest.len() < HEADER_BYTES ==> head@ =~= rest);
        }
        match scanner.supply(head) {
            Ok(_) => {},
            Err(e) => {
                return Err(e);
            },
        }
        if scanner.tail.is_some() {
            return scanner.finish();
        }
        let second: SpoolRead = match scanner.next_read() {
            Some(read) => read,
            None => {
                return scanner.finish();
            },
        };
        let end: usize = middle + second.length as usize;
        let behind: &[u8] = vstd::slice::slice_subrange(file, middle, end);
        proof {
            let stored = announced_frame_bytes(head@);
            let body_bytes = announced_body_bytes(head@);
            assert(behind@.subrange(0, body_bytes) =~= rest.subrange(
                HEADER_BYTES as int,
                stored - FOOTER_BYTES,
            ));
            assert(behind@.subrange(body_bytes, behind@.len() as int) =~= rest.subrange(
                stored - FOOTER_BYTES,
                stored,
            ));
        }
        match scanner.supply(behind) {
            Ok(_) => {},
            Err(e) => {
                return Err(e);
            },
        }
    }
}

/// Whether a batch is what the frame between two positions holds.
pub open(crate) spec fn batch_read_back(
    file: Seq<u8>,
    position: int,
    end: int,
    batch: RecoveredBatch,
) -> bool {
    let header = file.subrange(position, position + HEADER_BYTES);
    &&& batch.metadata == header_metadata(header)
    &&& batch.body@ == file.subrange(position + HEADER_BYTES, end - FOOTER_BYTES)
    &&& batch.body_digest.bytes == blake3_digest(batch.body@)
    &&& batch.range.start.position == position
    &&& batch.range.end.position == end
}

/// Where the frame whose header stands at `position` ends, if it lies in data that is committed up
/// to `end`.
pub open spec fn recovered_end(stored: int, position: int, end: int) -> Result<
    int,
    SpoolCorruption,
> {
    if position + stored > u64::MAX {
        Err(SpoolCorruption::RecoveredFramePosition)
    } else if position + stored > end {
        Err(SpoolCorruption::RecoveredRange)
    } else {
        Ok(position + stored)
    }
}

/// Reads the frame at `position` of spool data that was committed up to `end` when it was
/// recovered: where it ends, or why it is no longer a committed frame.
pub open spec fn recovered_frame_at(
    file: Seq<u8>,
    position: int,
    end: int,
    body_limit: u64,
) -> Result<int, SpoolCorruption> {
    if position + HEADER_BYTES > file.len() {
        Err(SpoolCorruption::CommittedDataChanged)
    } else {
        let header = file.subrange(position, position + HEADER_BYTES);
        match header_fault(header, body_limit) {
            Some(fault) => Err(fault),
            None => match recovered_end(announced_frame_bytes(header), position, end) {
                Err(fault) => Err(fault),
                Ok(next) => if next > file.len() {
                    Err(SpoolCorruption::CommittedDataChanged)
                } else {
                    match frame_fault(
                        header,
                        file.subrange(position + HEADER_BYTES, next - FOOTER_BYTES),
                        file.subrange(next - FOOTER_BYTES, next),
                    ) {
                        Some(fault) => Err(fault),
                        None => Ok(next),
                    }
                },
            },
        }
    }
}

/// Where the frame with this header, which was read at `position`, ends.
pub fn recovered_frame_end(header: &FrameHeader, position: u64, end: u64) -> (r: Result<
    u64,
    SpoolError,
>)
    ensures
        match recovered_end(header.stored_bytes as int, position as int, end as int) {
            Ok(next) => r matches Ok(found) && found == next,
            Err(fault) => r == Err::<u64, SpoolError>(SpoolError::spec_corrupt(fault)),
        },
{
    match position.checked_add(header.stored_bytes) {
        None => Err(SpoolError::corrupt(SpoolCorruption::RecoveredFramePosition)),
        Some(next) => if next > end {
            Err(SpoolError::corrupt(SpoolCorruption::RecoveredRange))
        } else {
            Ok(next)
        },
    }
}

/// Reads the batch at `position` of spool data that was committed up to `end` when it was
/// recovered.
pub fn read_recovered_batch(
    file: &[u8],
    position: u64,
    end: u64,
    body_limit: AppendBodyLimit,
) -> (r: Result<(RecoveredBatch, u64), SpoolError>)
    ensures
        match recovered_frame_at(file@, position as int, end as int, body_limit.spec_get()) {
            Ok(next) => r matches Ok((batch, next_position)) && next_position == next
                && batch_read_back(file@, position as int, next, batch),
            Err(fault) => r == Err::<(RecoveredBatch, u64), SpoolError>(
                SpoolError::spec_corrupt(fault),
            ),
        },
{
    let available: usize = file.len();
    if position > available as u64 || available - (position as usize) < HEADER_BYTES {
        return Err(SpoolError::corrupt(SpoolCorruption::CommittedDataChanged));
    }
    let start: usize = position as usize;
    let raw: &[u8] = vstd::slice::slice_subrange(file, start, start + HEADER_BYTES);
    let header: FrameHeader = match decode_header(raw, body_limit) {
        Ok(header) => header,
        Err(e) => {
            return Err(e);
        },
    };
    let next_position: u64 = match recovered_frame_end(&header, position, end) {
        Ok(next) => next,
        Err(e) => {
            return Err(e);
        },
    };
    if next_position > available as u64 {
        return Err(SpoolError::corrupt(SpoolCorruption::CommittedDataChanged));
    }
    let behind: &[u8] = vstd::slice::slice_subrange(
        file,
        start + HEADER_BYTES,
        next_position as usize,
    );
    let ghost body_bytes = header.body_bytes.value as int;
    assert(behind@.subrange(0, body_bytes) =~= file@.subrange(
        position + HEADER_BYTES,
        next_position - FOOTER_BYTES,
    ));
    assert(behind@.subrange(body_bytes, behind@.len() as int) =~= file@.subrange(
        next_position - FOOTER_BYTES,
        next_position as int,
    ));
    match recovered_batch(&header, behind, position) {
        Ok(batch) => Ok((batch, next_position)),
        Err(e) => Err(e),
    }
}

/// A committed frame that a scan finds is read back, and ends where the scan says.
pub proof fn committed_frame_is_read_back(
    file: Seq<u8>,
    position: int,
    next: int,
    end: int,
    body_limit: u64,
)
    requires
        0 <= position <= file.len(),
        frame_at(file, position, body_limit) == (FrameAt::Complete { end: next }),
        next <= end,
    ensures
        recovered_frame_at(file, position, end, body_limit) == Ok::<int, SpoolCorruption>(next),
{
    reveal(frame_at);
    lemma_frame_advances(file, position, body_limit);
    let rest = file.subrange(position, file.len() as int);
    let stored = next - position;
    assert(rest.subrange(0, HEADER_BYTES as int) =~= file.subrange(
        position,
        position + HEADER_BYTES,
    ));
    assert(rest.subrange(HEADER_BYTES as int, stored - FOOTER_BYTES) =~= file.subrange(
        position + HEADER_BYTES,
        next - FOOTER_BYTES,
    ));
    assert(rest.subrange(stored - FOOTER_BYTES, stored) =~= file.subrange(
        next - FOOTER_BYTES,
        next,
    ));
}

/// The batch whose header was read at `position`, and whose body and footer stand in `behind`.
pub fn recovered_batch(header: &FrameHeader, behind: &[u8], position: u64) -> (r: Result<
    RecoveredBatch,
    SpoolError,
>)
    requires
        header.describes(header.raw@),
        behind@.len() == header.body_bytes.value + FOOTER_BYTES,
        position + header.stored_bytes <= u64::MAX,
    ensures
        ({
            let body = behind@.subrange(0, header.body_bytes.value as int);
            let footer = behind@.subrange(header.body_bytes.value as int, behind@.len() as int);
            match frame_fault(header.raw@, body, footer) {
                Some(fault) => r == Err::<RecoveredBatch, SpoolError>(
                    SpoolError::spec_corrupt(fault),
                ),
                None => {
                    &&& r matches Ok(batch)
                    &&& batch.metadata == header.metadata
                    &&& batch.body@ == body
                    &&& batch.body_digest.bytes == blake3_digest(body)
                    &&& batch.range.spec_start().position == position
                    &&& batch.range.spec_end().position == position + header.stored_bytes
                },
            }
        }),
{
    let body_bytes: usize = header.body_bytes.get() as usize;
    let body: &[u8] = vstd::slice::slice_subrange(behind, 0, body_bytes);
    let footer: &[u8] = vstd::slice::slice_subrange(behind, body_bytes, behind.len());
    let body_digest: BodyDigest = BodyDigest::calculate(body);
    let frame_digest: [u8; 32] = digest_of_pair(header.raw.as_slice(), body);
    match validate_digests_and_footer(header, body_digest.bytes, frame_digest, footer) {
        Ok(_) => match SpoolBatchRange::new(position, position + header.stored_bytes) {
            Ok(range) => Ok(
                RecoveredBatch {
                    metadata: header.metadata,
                    body: copy_range(behind, 0, body_bytes),
                    body_digest,
                    range,
                },
            ),
            Err(e) => Err(e),
        },
        Err(e) => Err(e),
    }
}

/// Whether a reader of recovered batches can go on.
#[derive(Clone, Copy, Debug, PartialEq, Eq, Structural)]
pub enum RecoveredBatchState {
    Reading,
    Complete,
    Failed,
}

/// A reader of the batches that the recovered checkpoint does not cover. It reads the committed
/// range that was observed during recovery and no later append.
#[derive(Debug)]
pub struct RecoveredBatches {
    pub position: u64,
    pub end: u64,
    pub body_limit: AppendBodyLimit,
    pub state: RecoveredBatchState,
}

impl RecoveredBatches {
    pub fn new(report: RecoveryReport, body_limit: AppendBodyLimit) -> (r: Self)
        ensures
            r.position == report.checkpoint.position,
            r.end == report.committed_bytes,
            r.body_limit == body_limit,
            r.state == RecoveredBatchState::Reading,
    {
        RecoveredBatches {
            position: report.checkpoint.position(),
            end: report.committed_bytes(),
            body_limit,
            state: RecoveredBatchState::Reading,
        }
    }

    /// The position of the next batch, or `None` at the end of the committed range.
    pub fn next_position(&mut self) -> (r: Result<Option<u64>, SpoolError>)
        ensures
            final(self).position == old(self).position,
            final(self).end == old(self).end,
            final(self).body_limit == old(self).body_limit,
            match old(self).state {
                RecoveredBatchState::Failed => r == Err::<Option<u64>, SpoolError>(
                    SpoolError::spec_unavailable(SpoolInvariant::ReaderFailed),
                ) && final(self).state == RecoveredBatchState::Failed,
                RecoveredBatchState::Complete => r == Ok::<Option<u64>, SpoolError>(None)
                    && final(self).state == RecoveredBatchState::Complete,
                RecoveredBatchState::Reading => if old(self).position == old(self).end {
                    r == Ok::<Option<u64>, SpoolError>(None) && final(self).state
                        == RecoveredBatchState::Complete
                } else {
                    r == Ok::<Option<u64>, SpoolError>(Some(old(self).position))
                        && final(self).state == RecoveredBatchState::Reading
                },
            },
    {
        match self.state {
            RecoveredBatchState::Reading => {},
            RecoveredBatchState::Complete => {
                return Ok(None);
            },
            RecoveredBatchState::Failed => {
                return Err(SpoolError::unavailable(SpoolInvariant::ReaderFailed));
            },
        }
        if self.position == self.end {
            self.state = RecoveredBatchState::Complete;
            return Ok(None);
        }
        Ok(Some(self.position))
    }

    /// Takes the outcome of reading the next batch. A failed reader cannot resume.
    pub fn accept(&mut self, outcome: Result<(RecoveredBatch, u64), SpoolError>) -> (r: Result<
        RecoveredBatch,
        SpoolError,
    >)
        ensures
            final(self).end == old(self).end,
            final(self).body_limit == old(self).body_limit,
            match outcome {
                Ok((batch, next)) => {
                    &&& r == Ok::<RecoveredBatch, SpoolError>(batch)
                    &&& final(self).position == next
                    &&& final(self).state == old(self).state
                },
                Err(e) => {
                    &&& r == Err::<RecoveredBatch, SpoolError>(e)
                    &&& final(self).position == old(self).position
                    &&& final(self).state == RecoveredBatchState::Failed
                },
            },
    {
        match outcome {
            Ok((batch, next)) => {
                self.position = next;
                Ok(batch)
            },
            Err(e) => {
                self.state = RecoveredBatchState::Failed;
                Err(e)
            },
        }
    }
}

/// What recovery reports of a scan.
pub fn recovery_report(
    checkpoint: SpoolCheckpoint,
    scan: FrameScan,
    capacity: SpoolCapacity,
    maximum_batch: AppendBodyLimit,
) -> (r: Result<RecoveryReport, SpoolError>)
    ensures
        match r {
            Ok(report) => report == (RecoveryReport {
                checkpoint,
                committed_batches: scan.committed_batches,
                pending_batches: scan.pending_batches,
                committed_bytes: scan.committed_bytes,
                discarded_tail_bytes: scan.discarded_tail_bytes,
                maximum_batch_admission: if maximum_batch.spec_get() + FRAME_OVERHEAD_BYTES
                    <= remaining_capacity(
                    capacity.spec_get() as int,
                    scan.committed_bytes as int,
                ) {
                    MaximumBatchAdmission::Available
                } else {
                    MaximumBatchAdmission::CapacityExhausted
                },
            }),
            Err(e) => maximum_batch.spec_get() + FRAME_OVERHEAD_BYTES > u64::MAX && e
                == SpoolError::spec_unavailable(SpoolInvariant::ReservationSizeOverflow),
        },
{
    let required_bytes: u64 = match reserved_frame_bytes(maximum_batch) {
        Ok(bytes) => bytes,
        Err(e) => {
            return Err(e);
        },
    };
    let available_bytes: u64 = capacity.get().saturating_sub(scan.committed_bytes);
    Ok(
        RecoveryReport {
            checkpoint,
            committed_batches: scan.committed_batches,
            pending_batches: scan.pending_batches,
            committed_bytes: scan.committed_bytes,
            discarded_tail_bytes: scan.discarded_tail_bytes,
            maximum_batch_admission: if required_bytes <= available_bytes {
                MaximumBatchAdmission::Available
            } else {
                MaximumBatchAdmission::CapacityExhausted
            },
        },
    )
}

/// The frames of batches that were appended one after another.
pub open(crate) spec fn spool_bytes(batches: Seq<(BatchMetadata, Seq<u8>)>) -> Seq<u8>
    decreases batches.len(),
{
    if batches.len() == 0 {
        Seq::empty()
    } else {
        frame_bytes(batches[0].0, batches[0].1) + spool_bytes(batches.drop_first())
    }
}

/// Whether each batch could have been appended under this body limit.
pub open(crate) spec fn appendable(
    batches: Seq<(BatchMetadata, Seq<u8>)>,
    body_limit: u64,
) -> bool {
    forall|i: int|
        #![trigger batches[i]]
        0 <= i < batches.len() ==> metadata_valid(batches[i].0) && batches[i].1.len() <= body_limit
            && batches[i].1.len() + FRAME_OVERHEAD_BYTES <= u64::MAX
}

/// What remains of an append that was interrupted: nothing, or the beginning of a frame.
pub open(crate) spec fn interrupted_append(tail: Seq<u8>, body_limit: u64) -> bool {
    tail.len() == 0 || exists|metadata: BatchMetadata, body: Seq<u8>| #[trigger]
        interrupted_append_of(tail, metadata, body, body_limit)
}

pub open(crate) spec fn interrupted_append_of(
    tail: Seq<u8>,
    metadata: BatchMetadata,
    body: Seq<u8>,
    body_limit: u64,
) -> bool {
    &&& metadata_valid(metadata)
    &&& body.len() <= body_limit
    &&& body.len() + FRAME_OVERHEAD_BYTES <= u64::MAX
    &&& tail.len() < frame_bytes(metadata, body).len()
    &&& tail == frame_bytes(metadata, body).subrange(0, tail.len() as int)
}

/// Whether the end of the frame whose beginning is `tail` can be represented, as far as `tail`
/// says where that is.
pub open spec fn end_representable(start: int, tail: Seq<u8>) -> bool {
    tail.len() >= HEADER_BYTES ==> start + announced_frame_bytes(
        tail.subrange(0, HEADER_BYTES as int),
    ) <= u64::MAX
}

/// An appended frame is found where it was appended, whatever stands around it.
#[verifier::rlimit(40)]
#[verifier::spinoff_prover]
pub proof fn appended_frame_is_found(
    before: Seq<u8>,
    metadata: BatchMetadata,
    body: Seq<u8>,
    after: Seq<u8>,
    body_limit: u64,
)
    requires
        metadata_valid(metadata),
        body.len() <= body_limit,
        before.len() + body.len() + FRAME_OVERHEAD_BYTES <= u64::MAX,
    ensures
        ({
            let file = before + frame_bytes(metadata, body) + after;
            let end = before.len() + body.len() + FRAME_OVERHEAD_BYTES;
            &&& frame_at(file, before.len() as int, body_limit) == (FrameAt::Complete { end })
            &&& header_metadata(file.subrange(before.len() as int, before.len() + HEADER_BYTES))
                == metadata
            &&& file.subrange(before.len() + HEADER_BYTES, end - FOOTER_BYTES) == body
        }),
{
    reveal(frame_at);
    reveal(frame_bytes);
    let frame = frame_bytes(metadata, body);
    let file = before + frame + after;
    let rest = file.subrange(before.len() as int, file.len() as int);
    let header = header_bytes(metadata, body);
    let stored = body.len() + FRAME_OVERHEAD_BYTES;
    header_reads_back(metadata, body, body_limit);
    frame_reads_back(metadata, body);
    assert(rest.subrange(0, HEADER_BYTES as int) =~= header);
    assert(file.subrange(before.len() as int, before.len() + HEADER_BYTES) =~= header);
    assert(rest.subrange(HEADER_BYTES as int, stored - FOOTER_BYTES) =~= body);
    assert(file.subrange(
        before.len() + HEADER_BYTES,
        before.len() + stored - FOOTER_BYTES,
    ) =~= body);
    assert(rest.subrange(stored - FOOTER_BYTES, stored) =~= footer_bytes(header, body));
}

/// The beginning of a frame at the end of the data is an incomplete append, not corruption.
pub proof fn interrupted_append_is_torn(before: Seq<u8>, tail: Seq<u8>, body_limit: u64)
    requires
        tail.len() > 0,
        interrupted_append(tail, body_limit),
        end_representable(before.len() as int, tail),
    ensures
        frame_at(before + tail, before.len() as int, body_limit) == FrameAt::Torn,
{
    reveal(frame_at);
    reveal(frame_bytes);
    let (metadata, body) = choose|metadata: BatchMetadata, body: Seq<u8>| #[trigger]
        interrupted_append_of(tail, metadata, body, body_limit);
    let file = before + tail;
    let rest = file.subrange(before.len() as int, file.len() as int);
    let header = header_bytes(metadata, body);
    header_reads_back(metadata, body, body_limit);
    frame_reads_back(metadata, body);
    assert(rest =~= tail);
    if tail.len() < HEADER_BYTES {
        header_prefix_is_accepted(metadata, body, body_limit, tail.len() as int);
        assert(tail =~= header.subrange(0, tail.len() as int));
    } else {
        assert(rest.subrange(0, HEADER_BYTES as int) =~= header);
    }
}

/// Recovery finds every batch that was appended, counts those behind the checkpoint as pending,
/// and discards nothing but an append that was interrupted.
pub proof fn appended_batches_are_recovered(
    covered: Seq<(BatchMetadata, Seq<u8>)>,
    pending: Seq<(BatchMetadata, Seq<u8>)>,
    tail: Seq<u8>,
    body_limit: u64,
)
    requires
        appendable(covered, body_limit),
        appendable(pending, body_limit),
        interrupted_append(tail, body_limit),
        spool_bytes(covered).len() + spool_bytes(pending).len() + tail.len() <= u64::MAX,
        end_representable((spool_bytes(covered).len() + spool_bytes(pending).len()) as int, tail),
    ensures
        ({
            let file = spool_bytes(covered) + spool_bytes(pending) + tail;
            let checkpoint = spool_bytes(covered).len() as u64;
            scan_from(file, checkpoint, body_limit, scan_start(checkpoint)) == Ok::<
                FrameScan,
                SpoolError,
            >(
                FrameScan {
                    committed_batches: (covered.len() + pending.len()) as u64,
                    pending_batches: pending.len() as u64,
                    committed_bytes: (spool_bytes(covered).len() + spool_bytes(
                        pending,
                    ).len()) as u64,
                    discarded_tail_bytes: tail.len() as u64,
                },
            )
        }),
{
    let checkpoint = spool_bytes(covered).len() as u64;
    let after = spool_bytes(pending) + tail;
    let file = spool_bytes(covered) + spool_bytes(pending) + tail;
    lemma_spool_bytes_len(covered);
    lemma_spool_bytes_len(pending);
    let at_checkpoint = ScanProgress {
        position: checkpoint,
        committed_batches: covered.len() as u64,
        pending_batches: 0,
        checkpoint_is_boundary: true,
    };
    assert(file =~= Seq::<u8>::empty() + spool_bytes(covered) + after);
    lemma_scan_covered(
        Seq::empty(),
        covered,
        after,
        checkpoint,
        body_limit,
        scan_start(checkpoint),
    );
    assert(file =~= spool_bytes(covered) + spool_bytes(pending) + tail);
    lemma_scan_pending(
        spool_bytes(covered),
        pending,
        tail,
        checkpoint,
        body_limit,
        at_checkpoint,
    );
}

/// A frame that lies within the beginning of the data is found there without the rest.
proof fn lemma_frame_within(file: Seq<u8>, position: int, body_limit: u64, length: int)
    requires
        0 <= position <= length <= file.len(),
        frame_at(file, position, body_limit) matches FrameAt::Complete { end } && end <= length,
    ensures
        frame_at(file.subrange(0, length), position, body_limit) == frame_at(
            file,
            position,
            body_limit,
        ),
{
    reveal(frame_at);
    lemma_frame_advances(file, position, body_limit);
    let kept = file.subrange(0, length);
    let rest = file.subrange(position, file.len() as int);
    let kept_rest = kept.subrange(position, length);
    let header = rest.subrange(0, HEADER_BYTES as int);
    let stored = announced_frame_bytes(header);
    assert(kept_rest.subrange(0, HEADER_BYTES as int) =~= header);
    assert(kept_rest.subrange(HEADER_BYTES as int, stored - FOOTER_BYTES) =~= rest.subrange(
        HEADER_BYTES as int,
        stored - FOOTER_BYTES,
    ));
    assert(kept_rest.subrange(stored - FOOTER_BYTES, stored) =~= rest.subrange(
        stored - FOOTER_BYTES,
        stored,
    ));
}

proof fn lemma_scan_accounts(
    file: Seq<u8>,
    checkpoint: u64,
    body_limit: u64,
    progress: ScanProgress,
    scan: FrameScan,
)
    requires
        file.len() <= u64::MAX,
        progress.position <= file.len(),
        scan_from(file, checkpoint, body_limit, progress) == Ok::<FrameScan, SpoolError>(scan),
    ensures
        progress.position <= scan.committed_bytes,
        scan.committed_bytes + scan.discarded_tail_bytes == file.len(),
        checkpoint <= scan.committed_bytes,
        scan.discarded_tail_bytes > 0 ==> frame_at(file, scan.committed_bytes as int, body_limit)
            == FrameAt::Torn,
        scan_from(
            file.subrange(0, scan.committed_bytes as int),
            checkpoint,
            body_limit,
            progress,
        ) == Ok::<FrameScan, SpoolError>(FrameScan { discarded_tail_bytes: 0, ..scan }),
    decreases file.len() - progress.position,
{
    if progress.position < file.len() {
        lemma_frame_advances(file, progress.position as int, body_limit);
        match frame_at(file, progress.position as int, body_limit) {
            FrameAt::Complete { end } => {
                let advanced = progress.advanced(end, checkpoint);
                lemma_scan_accounts(file, checkpoint, body_limit, advanced, scan);
                lemma_frame_within(
                    file,
                    progress.position as int,
                    body_limit,
                    scan.committed_bytes as int,
                );
                lemma_frame_advances(
                    file.subrange(0, scan.committed_bytes as int),
                    progress.position as int,
                    body_limit,
                );
            },
            _ => {},
        }
    }
}

/// Recovery accounts for every byte of data that it accepts. What it keeps is made of whole frames
/// up to the last one, scans again to the same batches with nothing to discard, and reaches the
/// checkpoint. What it discards is the beginning of an append that was never completed.
pub proof fn recovery_accounts_for_every_byte(
    file: Seq<u8>,
    checkpoint: u64,
    body_limit: u64,
    scan: FrameScan,
)
    requires
        file.len() <= u64::MAX,
        scan_from(file, checkpoint, body_limit, scan_start(checkpoint)) == Ok::<
            FrameScan,
            SpoolError,
        >(scan),
    ensures
        scan.committed_bytes + scan.discarded_tail_bytes == file.len(),
        checkpoint <= scan.committed_bytes,
        scan.discarded_tail_bytes > 0 ==> frame_at(file, scan.committed_bytes as int, body_limit)
            == FrameAt::Torn,
        scan_from(
            file.subrange(0, scan.committed_bytes as int),
            checkpoint,
            body_limit,
            scan_start(checkpoint),
        ) == Ok::<FrameScan, SpoolError>(FrameScan { discarded_tail_bytes: 0, ..scan }),
{
    lemma_scan_accounts(file, checkpoint, body_limit, scan_start(checkpoint), scan);
}

proof fn lemma_spool_bytes_len(batches: Seq<(BatchMetadata, Seq<u8>)>)
    ensures
        spool_bytes(batches).len() >= batches.len() * FRAME_OVERHEAD_BYTES,
    decreases batches.len(),
{
    if batches.len() > 0 {
        frame_reads_back(batches[0].0, batches[0].1);
        lemma_spool_bytes_len(batches.drop_first());
    }
}

/// Scanning batches that end at the checkpoint.
proof fn lemma_scan_covered(
    before: Seq<u8>,
    batches: Seq<(BatchMetadata, Seq<u8>)>,
    after: Seq<u8>,
    checkpoint: u64,
    body_limit: u64,
    progress: ScanProgress,
)
    requires
        appendable(batches, body_limit),
        before.len() + spool_bytes(batches).len() == checkpoint,
        progress.position == before.len(),
        progress.bounded(),
        progress.checkpoint_is_boundary == (checkpoint == before.len()),
        progress.committed_batches + batches.len() <= u64::MAX,
    ensures
        scan_from(before + spool_bytes(batches) + after, checkpoint, body_limit, progress)
            == scan_from(
            before + spool_bytes(batches) + after,
            checkpoint,
            body_limit,
            ScanProgress {
                position: checkpoint,
                committed_batches: (progress.committed_batches + batches.len()) as u64,
                pending_batches: progress.pending_batches,
                checkpoint_is_boundary: true,
            },
        ),
    decreases batches.len(),
{
    let file = before + spool_bytes(batches) + after;
    if batches.len() > 0 {
        let frame = frame_bytes(batches[0].0, batches[0].1);
        let others = batches.drop_first();
        let next = before + frame;
        frame_reads_back(batches[0].0, batches[0].1);
        lemma_spool_bytes_len(others);
        assert(file =~= before + frame + (spool_bytes(others) + after));
        appended_frame_is_found(
            before,
            batches[0].0,
            batches[0].1,
            spool_bytes(others) + after,
            body_limit,
        );
        assert(forall|i: int| #![trigger others[i]] 0 <= i < others.len() ==> others[i] == batches[i + 1]);
        assert(file =~= next + spool_bytes(others) + after);
        let advanced = progress.advanced(next.len() as int, checkpoint);
        lemma_scan_covered(next, others, after, checkpoint, body_limit, advanced);
    }
}

/// Scanning batches that begin at or behind the checkpoint.
proof fn lemma_scan_pending(
    before: Seq<u8>,
    batches: Seq<(BatchMetadata, Seq<u8>)>,
    tail: Seq<u8>,
    checkpoint: u64,
    body_limit: u64,
    progress: ScanProgress,
)
    requires
        appendable(batches, body_limit),
        interrupted_append(tail, body_limit),
        checkpoint <= before.len(),
        progress.position == before.len(),
        progress.bounded(),
        progress.checkpoint_is_boundary,
        before.len() + spool_bytes(batches).len() + tail.len() <= u64::MAX,
        end_representable((before.len() + spool_bytes(batches).len()) as int, tail),
        progress.committed_batches + batches.len() <= u64::MAX,
    ensures
        scan_from(before + spool_bytes(batches) + tail, checkpoint, body_limit, progress) == Ok::<
            FrameScan,
            SpoolError,
        >(
            FrameScan {
                committed_batches: (progress.committed_batches + batches.len()) as u64,
                pending_batches: (progress.pending_batches + batches.len()) as u64,
                committed_bytes: (before.len() + spool_bytes(batches).len()) as u64,
                discarded_tail_bytes: tail.len() as u64,
            },
        ),
    decreases batches.len(),
{
    let file = before + spool_bytes(batches) + tail;
    if batches.len() > 0 {
        let frame = frame_bytes(batches[0].0, batches[0].1);
        let others = batches.drop_first();
        let next = before + frame;
        frame_reads_back(batches[0].0, batches[0].1);
        lemma_spool_bytes_len(others);
        assert(file =~= before + frame + (spool_bytes(others) + tail));
        appended_frame_is_found(
            before,
            batches[0].0,
            batches[0].1,
            spool_bytes(others) + tail,
            body_limit,
        );
        assert(forall|i: int| #![trigger others[i]] 0 <= i < others.len() ==> others[i] == batches[i + 1]);
        assert(file =~= next + spool_bytes(others) + tail);
        let advanced = progress.advanced(next.len() as int, checkpoint);
        lemma_scan_pending(next, others, tail, checkpoint, body_limit, advanced);
    } else if tail.len() > 0 {
        assert(file =~= before + tail);
        interrupted_append_is_torn(before, tail, body_limit);
    } else {
        assert(file =~= before);
    }
}

/// Whether a stretch of the spool data is the frame of a batch with valid metadata and a body within
/// the limit.
pub open(crate) spec fn is_frame_of(
    stretch: Seq<u8>,
    metadata: BatchMetadata,
    body: Seq<u8>,
    body_limit: u64,
) -> bool {
    &&& metadata_valid(metadata)
    &&& body.len() <= body_limit
    &&& stretch == frame_bytes(metadata, body)
}

/// Where a committed frame is found, the frame of a batch stands, and ends there.
pub proof fn only_appended_frames_are_found(file: Seq<u8>, position: int, body_limit: u64)
    requires
        0 <= position <= file.len(),
    ensures
        frame_at(file, position, body_limit) matches FrameAt::Complete { end } ==> position < end
            <= file.len() && exists|metadata: BatchMetadata, body: Seq<u8>| #[trigger]
            is_frame_of(file.subrange(position, end), metadata, body, body_limit),
{
    reveal(frame_at);
    lemma_frame_advances(file, position, body_limit);
    if let FrameAt::Complete { end } = frame_at(file, position, body_limit) {
        let rest = file.subrange(position, file.len() as int);
        let stored = end - position;
        let header = rest.subrange(0, HEADER_BYTES as int);
        let body = rest.subrange(HEADER_BYTES as int, stored - FOOTER_BYTES);
        let footer = rest.subrange(stored - FOOTER_BYTES, stored);
        assert(body.len() == announced_body_bytes(header)) by {
            reveal(header_fault);
        }
        only_written_frames_are_accepted(header, body, footer, body_limit);
        assert(file.subrange(position, end) =~= header + body + footer);
        assert(is_frame_of(
            file.subrange(position, end),
            header_metadata(header),
            body,
            body_limit,
        ));
    }
}

} // verus!
