use elucid::identity::{BatchId, IngestionProfileRevisionId, InputId, SchemaId, SourceId};
use elucid::ingestion::checkpoint;
use elucid::ingestion::error::{ErrorCode, SpoolCorruption, SpoolError, SpoolInvariant};
use elucid::ingestion::frame::{
    decode_header, reserved_frame_bytes, PreparedFrame, FOOTER_BYTES, FRAME_OVERHEAD_BYTES,
    HEADER_BYTES,
};
use elucid::ingestion::model::{
    AppendBodyLimit, BatchMetadata, BodyDigest, DurableAppend, IngestionTime,
    MaximumBatchAdmission, PinnedCatalogIdentities, RecoveredBatch, RecoveryReport, SpoolBatchRange,
    SpoolCapacity, SpoolCheckpoint, SpoolReclamation, SpoolUsage,
};
use elucid::ingestion::output_recovery::CheckpointPlan;
use elucid::ingestion::recovery::{
    read_recovered_batch, recovery_report, scan_committed_frames, FrameScanner, RecoveredBatches,
};
use elucid::ingestion::spool::{
    append_range, durable_append, inspect_spool_files, must_initialize, SpoolAccounting, SpoolFiles,
};

/// A spool whose data file is held in memory.
struct MemorySpool {
    data: Vec<u8>,
    accounting: SpoolAccounting,
}

impl MemorySpool {
    fn create_new(capacity: u64) -> Self {
        let capacity = SpoolCapacity::new(capacity).expect("spool capacity");
        MemorySpool {
            data: Vec::new(),
            accounting: SpoolAccounting::from_recovered(capacity, 0, SpoolCheckpoint::initial()),
        }
    }

    fn append(&mut self, metadata: BatchMetadata, body: &[u8]) -> DurableAppend {
        let limit = AppendBodyLimit::new(body.len() as u64).expect("body limit");
        let reservation = self.accounting.reserve(limit).expect("reserve append");
        self.accounting.check_append(&reservation, body).expect("append fits");
        let prepared = PreparedFrame::new(metadata, body).expect("frame");
        let range =
            append_range(self.data.len() as u64, prepared.stored_bytes()).expect("append range");
        self.data.extend_from_slice(prepared.header());
        self.data.extend_from_slice(body);
        self.data.extend_from_slice(prepared.footer());
        self.accounting
            .commit_reservation(reservation.reserved_bytes, prepared.stored_bytes())
            .expect("commit");
        durable_append(metadata, &prepared, range)
    }

    fn recover(
        &self,
        capacity: u64,
        maximum_batch: AppendBodyLimit,
    ) -> Result<RecoveryReport, SpoolError> {
        let scan = scan_committed_frames(&self.data, self.accounting.checkpoint, maximum_batch)?;
        recovery_report(
            self.accounting.checkpoint,
            scan,
            SpoolCapacity::new(capacity).expect("spool capacity"),
            maximum_batch,
        )
    }
}

fn next_batch(batches: &mut RecoveredBatches, data: &[u8]) -> Option<RecoveredBatch> {
    let position = batches.next_position().expect("a readable spool")?;
    let outcome = read_recovered_batch(data, position, batches.end, batches.body_limit);
    Some(batches.accept(outcome).expect("a recovered batch"))
}

fn limit(bytes: u64) -> AppendBodyLimit {
    AppendBodyLimit::new(bytes).expect("body limit")
}

fn identity(sequence: u128) -> u128 {
    0x018f_0000_0000_7000_8000_0000_0000_0000 | sequence
}

fn batch_metadata(sequence: u128) -> BatchMetadata {
    BatchMetadata::new(
        BatchId::new(identity(sequence)).expect("batch identity"),
        PinnedCatalogIdentities::new(
            SourceId::new(identity(100)).expect("source identity"),
            InputId::new(identity(101)).expect("input identity"),
            IngestionProfileRevisionId::new(identity(102)).expect("profile identity"),
            SchemaId::new(identity(103)).expect("schema identity"),
        ),
        IngestionTime::from_unix_milliseconds(1_776_945_600_000 + sequence as i64)
            .expect("ingestion time"),
    )
}

fn contains(haystack: &[u8], needle: &[u8]) -> bool {
    haystack.windows(needle.len()).any(|candidate| candidate == needle)
}

#[test]
fn recovery_loads_committed_batches_and_the_initial_checkpoint() {
    let maximum_batch = limit(1_024);
    let mut spool = MemorySpool::create_new(16_384);
    spool.append(batch_metadata(1), b"first batch\n");
    spool.append(batch_metadata(2), b"second batch\n");

    let report = spool.recover(16_384, maximum_batch).expect("recover spool");
    assert_eq!(report.checkpoint().position(), 0);
    assert_eq!(report.committed_batches(), 2);
    assert_eq!(report.pending_batches(), 2);
    assert_eq!(report.discarded_tail_bytes(), 0);
    assert_eq!(report.maximum_batch_admission(), MaximumBatchAdmission::Available);

    let mut batches = RecoveredBatches::new(report, maximum_batch);
    spool.append(batch_metadata(3), b"later batch\n");
    let first = next_batch(&mut batches, &spool.data).expect("first recovered batch");
    assert_eq!(first.metadata(), batch_metadata(1));
    assert_eq!(first.body(), b"first batch\n");
    assert_eq!(first.body_digest(), BodyDigest::calculate(b"first batch\n"));
    let second = next_batch(&mut batches, &spool.data).expect("second recovered batch");
    assert_eq!(second.metadata(), batch_metadata(2));
    assert_eq!(second.body(), b"second batch\n");
    assert_eq!(second.range().start(), first.range().end());
    assert!(next_batch(&mut batches, &spool.data).is_none());
    assert!(
        spool.accounting.usage().expect("usage").committed_bytes() > report.committed_bytes()
    );
}

#[test]
fn recovery_discards_only_an_incomplete_final_append() {
    let maximum_batch = limit(1_024);
    let mut spool = MemorySpool::create_new(16_384);
    spool.append(batch_metadata(1), b"first committed batch\n");
    spool.append(batch_metadata(2), b"second committed batch\n");
    let committed_bytes = spool.data.len() as u64;

    let mut torn = MemorySpool::create_new(16_384);
    torn.append(batch_metadata(3), b"uncommitted torn batch\n");
    let torn_length = torn.data.len() - 11;
    spool.data.extend_from_slice(&torn.data[..torn_length]);

    let report = spool.recover(16_384, maximum_batch).expect("recover torn tail");
    assert_eq!(report.committed_batches(), 2);
    assert_eq!(report.discarded_tail_bytes(), torn_length as u64);
    assert_eq!(report.committed_bytes(), committed_bytes);
    let mut batches = RecoveredBatches::new(report, maximum_batch);
    assert_eq!(
        next_batch(&mut batches, &spool.data).expect("first batch").body(),
        b"first committed batch\n"
    );
    assert_eq!(
        next_batch(&mut batches, &spool.data).expect("second batch").body(),
        b"second committed batch\n"
    );
    assert!(next_batch(&mut batches, &spool.data).is_none());
}

#[test]
fn every_cut_of_a_final_append_is_discarded() {
    let mut spool = MemorySpool::create_new(16_384);
    spool.append(batch_metadata(1), b"kept\n");
    let committed = spool.data.len();
    spool.append(batch_metadata(2), b"lost\n");
    for length in committed..spool.data.len() {
        let scan =
            scan_committed_frames(&spool.data[..length], SpoolCheckpoint::initial(), limit(64))
                .expect("a torn append is no corruption");
        assert_eq!(scan.committed_batches, 1);
        assert_eq!(scan.committed_bytes, committed as u64);
        assert_eq!(scan.discarded_tail_bytes, (length - committed) as u64);
    }
}

#[test]
fn recovery_rejects_corruption_without_truncating_committed_data() {
    let mut spool = MemorySpool::create_new(16_384);
    spool.append(batch_metadata(1), b"committed body must not be discarded\n");
    spool.data[HEADER_BYTES] ^= 0xff;
    let error = spool
        .recover(16_384, limit(1_024))
        .expect_err("committed corruption must fail recovery");
    assert_eq!(error.error_code(), ErrorCode::SpoolCorrupt);
}

#[test]
fn recovery_rejects_an_arbitrary_tail_without_truncating_it() {
    let mut spool = MemorySpool::create_new(16_384);
    spool.append(batch_metadata(1), b"committed body before invalid tail\n");
    spool.data.extend_from_slice(b"not a spool frame");
    let error = spool
        .recover(16_384, limit(1_024))
        .expect_err("an arbitrary tail is corruption, not a torn append");
    assert_eq!(error.error_code(), ErrorCode::SpoolCorrupt);
    assert_eq!(error, SpoolError::corrupt(SpoolCorruption::IncompletePrefix));
}

#[test]
fn recovery_reports_when_another_maximum_batch_will_not_fit() {
    let maximum_batch = limit(2_000);
    let mut spool = MemorySpool::create_new(4_096);
    spool.append(batch_metadata(1), &[b'a'; 2_000]);
    spool.append(batch_metadata(2), &[b'b'; 1_000]);

    let report = spool.recover(4_096, maximum_batch).expect("recover full spool");
    assert_eq!(report.maximum_batch_admission(), MaximumBatchAdmission::CapacityExhausted);
    let error =
        spool.accounting.reserve(maximum_batch).expect_err("maximum batch must remain rejected");
    assert_eq!(error.error_code(), ErrorCode::CapacityExhausted);
    assert_eq!(
        spool.accounting.maximum_batch_admission(maximum_batch),
        Ok(MaximumBatchAdmission::CapacityExhausted)
    );
    assert_eq!(
        spool.accounting.maximum_batch_admission(limit(1)),
        Ok(MaximumBatchAdmission::Available)
    );
}

#[test]
fn durable_append_persists_the_exact_body_and_pinned_metadata() {
    let mut spool = MemorySpool::create_new(16_384);
    let metadata = batch_metadata(1);
    let body: &[u8] = b"{\"timestamp\":\"2026-08-20T12:00:00.000Z\",\"message\":\"exact body\"}\n";
    let durable = spool.append(metadata, body);

    assert_eq!(durable.metadata(), metadata);
    assert_eq!(durable.body_bytes().get(), body.len() as u64);
    assert_eq!(durable.body_digest(), BodyDigest::calculate(body));
    let usage = spool.accounting.usage().expect("spool usage");
    assert_eq!(usage.committed_bytes(), spool.data.len() as u64);
    assert_eq!(usage.reserved_bytes(), 0);
    assert!(contains(&spool.data, body), "body bytes must be stored exactly");
    let catalog = metadata.catalog();
    assert!(contains(&spool.data, &metadata.batch_id().as_u128().to_be_bytes()));
    assert!(contains(&spool.data, &catalog.source_id().as_u128().to_be_bytes()));
    assert!(contains(&spool.data, &catalog.input_id().as_u128().to_be_bytes()));
    assert!(contains(&spool.data, &catalog.profile_revision_id().as_u128().to_be_bytes()));
    assert!(contains(&spool.data, &catalog.target_schema_id().as_u128().to_be_bytes()));
    assert!(contains(
        &spool.data,
        &metadata.ingestion_time().unix_milliseconds().to_be_bytes()
    ));
    assert!(contains(&spool.data, durable.body_digest().as_bytes()));
}

#[test]
fn reservation_prevents_overcommit_and_releases_unused_capacity() {
    let mut spool = MemorySpool::create_new(10_000);
    let limit = limit(8_000);
    let reservation = spool.accounting.reserve(limit).expect("first reservation");
    let error = spool.accounting.reserve(limit).expect_err("capacity must be reserved");
    assert_eq!(error.error_code(), ErrorCode::CapacityExhausted);
    assert_eq!(error, SpoolError::capacity(8_196, 1_804));
    assert!(spool.accounting.usage().expect("usage").reserved_bytes() >= limit.get());

    spool.accounting.release_reservation(reservation.reserved_bytes);

    assert_eq!(spool.accounting.usage().expect("usage").reserved_bytes(), 0);
    assert!(spool.accounting.reserve(limit).is_ok(), "released capacity is reusable");
}

#[test]
fn body_larger_than_the_reservation_is_not_appended() {
    let mut spool = MemorySpool::create_new(4_096);
    let reservation = spool.accounting.reserve(limit(3)).expect("reservation");
    let error = spool
        .accounting
        .check_append(&reservation, b"four")
        .expect_err("oversized body must fail");
    spool.accounting.release_reservation(reservation.reserved_bytes);
    assert_eq!(error.error_code(), ErrorCode::IngestionBatchLimitExceeded);
    assert_eq!(error, SpoolError::batch_limit(4, 3));
    let usage = spool.accounting.usage().expect("usage");
    assert_eq!(usage.committed_bytes(), 0);
    assert_eq!(usage.reserved_bytes(), 0);
}

#[test]
fn a_failed_spool_answers_nothing() {
    let mut spool = MemorySpool::create_new(4_096);
    spool.accounting.mark_failed();
    let unavailable = SpoolError::unavailable(SpoolInvariant::Unavailable);
    assert_eq!(spool.accounting.ensure_writable(), Err(unavailable));
    assert_eq!(spool.accounting.usage(), Err(unavailable));
    assert_eq!(spool.accounting.checkpoint(), Err(unavailable));
    assert_eq!(spool.accounting.reclaim_checkpointed(), Err(unavailable));
    assert_eq!(unavailable.error_code().as_str(), "SPOOL_UNAVAILABLE");
    assert_eq!(unavailable.kind().as_str(), "SPOOL_UNAVAILABLE");
}

#[test]
fn a_checkpoint_plan_must_start_at_the_checkpoint_and_stay_within_the_data() {
    let mut spool = MemorySpool::create_new(4_096);
    let range = spool.append(batch_metadata(1), b"x\n").range();
    let plan = CheckpointPlan { current: range.start(), target: range.end() };
    assert_eq!(spool.accounting.check_checkpoint_plan(plan), Ok(range.end()));
    assert_eq!(spool.accounting.reclaim_checkpointed(), Ok(SpoolReclamation::Deferred));
    let beyond = SpoolCheckpoint::from_position(range.end().position() + 1);
    assert_eq!(
        spool
            .accounting
            .check_checkpoint_plan(CheckpointPlan { current: range.start(), target: beyond }),
        Err(SpoolError::unavailable(SpoolInvariant::CheckpointPlanExceedsData))
    );
    spool.accounting.install_checkpoint(range.end());
    assert_eq!(
        spool.accounting.check_checkpoint_plan(plan),
        Err(SpoolError::unavailable(SpoolInvariant::CheckpointPlanStale))
    );
    assert_eq!(
        spool.accounting.reclaim_checkpointed(),
        Ok(SpoolReclamation::Reclaimed { bytes: range.end().position() })
    );
    spool.accounting.install_checkpoint(SpoolCheckpoint::initial());
    spool.accounting.data_truncated();
    assert_eq!(spool.accounting.usage().expect("usage").committed_bytes(), 0);
    assert_eq!(spool.accounting.checkpoint(), Ok(SpoolCheckpoint::initial()));
}

#[test]
fn a_checkpoint_must_fall_between_frames() {
    let mut spool = MemorySpool::create_new(4_096);
    let first = spool.append(batch_metadata(1), b"one\n").range();
    spool.append(batch_metadata(2), b"two\n");
    let scan =
        scan_committed_frames(&spool.data, first.end(), limit(64)).expect("a scan");
    assert_eq!((scan.committed_batches, scan.pending_batches), (2, 1));
    assert_eq!(
        scan_committed_frames(&spool.data, SpoolCheckpoint::from_position(7), limit(64)),
        Err(SpoolError::corrupt(SpoolCorruption::CheckpointBoundary))
    );
}

#[test]
fn a_scan_asks_for_what_it_needs() {
    let mut spool = MemorySpool::create_new(4_096);
    spool.append(batch_metadata(1), b"one\n");
    let mut scanner =
        FrameScanner::new(spool.data.len() as u64, SpoolCheckpoint::initial(), limit(64));
    let mut reads = Vec::new();
    while let Some(read) = scanner.next_read() {
        reads.push((read.start, read.length));
        let start = read.start as usize;
        scanner
            .supply(&spool.data[start..start + read.length as usize])
            .expect("valid data");
    }
    assert_eq!(reads, [(0, HEADER_BYTES as u64), (HEADER_BYTES as u64, 4 + FOOTER_BYTES as u64)]);
    assert_eq!(scanner.finish().expect("a scan").committed_batches, 1);
}

#[test]
fn frames_have_a_fixed_layout() {
    let prepared = PreparedFrame::new(batch_metadata(1), b"abc").expect("frame");
    assert_eq!(prepared.header().len(), HEADER_BYTES);
    assert_eq!(prepared.footer().len(), FOOTER_BYTES);
    assert_eq!(prepared.stored_bytes(), 3 + FRAME_OVERHEAD_BYTES);
    assert_eq!(prepared.body_digest().as_bytes(), blake3::hash(b"abc").as_bytes());
    let header = decode_header(prepared.header(), limit(3)).expect("header");
    assert_eq!(header.stored_bytes, prepared.stored_bytes());
    assert_eq!(
        decode_header(prepared.header(), limit(2)).err(),
        Some(SpoolError::corrupt(SpoolCorruption::FrameBodyLength))
    );
    let mut foreign = prepared.header().to_vec();
    foreign[0] ^= 1;
    assert_eq!(
        decode_header(&foreign, limit(3)).err(),
        Some(SpoolError::corrupt(SpoolCorruption::FrameMagic))
    );
    assert_eq!(reserved_frame_bytes(limit(10)), Ok(10 + FRAME_OVERHEAD_BYTES));
    assert_eq!(
        reserved_frame_bytes(limit(u64::MAX)),
        Err(SpoolError::unavailable(SpoolInvariant::ReservationSizeOverflow))
    );
}

#[test]
fn checkpoints_read_back() {
    for position in [0, 1, 4_096, u64::MAX] {
        let bytes = checkpoint::encode(SpoolCheckpoint::from_position(position));
        assert_eq!(bytes.len(), checkpoint::CHECKPOINT_BYTES);
        assert_eq!(checkpoint::decode(&bytes), Ok(SpoolCheckpoint::from_position(position)));
    }
    let mut bytes = checkpoint::encode(SpoolCheckpoint::from_position(5));
    assert_eq!(
        checkpoint::decode(&bytes[..51]),
        Err(SpoolError::corrupt(SpoolCorruption::CheckpointLength))
    );
    bytes[51] ^= 1;
    assert_eq!(
        checkpoint::decode(&bytes),
        Err(SpoolError::corrupt(SpoolCorruption::CheckpointDigest))
    );
    bytes[0] ^= 1;
    assert_eq!(
        checkpoint::decode(&bytes),
        Err(SpoolError::corrupt(SpoolCorruption::CheckpointMagic))
    );
}

#[test]
fn spool_files_come_in_pairs() {
    assert_eq!(inspect_spool_files(false, false), SpoolFiles::Absent);
    assert_eq!(must_initialize(SpoolFiles::Absent), Ok(true));
    assert_eq!(must_initialize(inspect_spool_files(true, true)), Ok(false));
    assert_eq!(
        must_initialize(inspect_spool_files(true, false)).map_err(|error| error.error_code()),
        Err(ErrorCode::SpoolCorrupt)
    );
}

#[test]
fn usage_adds_up() {
    let usage = SpoolUsage::new(100, 30, 20).expect("usage");
    assert_eq!(usage.available_bytes(), 50);
    assert_eq!(SpoolUsage::new(10, 30, 20).expect("usage").available_bytes(), 0);
    assert_eq!(
        SpoolUsage::new(10, u64::MAX, 1),
        Err(SpoolError::unavailable(SpoolInvariant::UsageOverflow))
    );
    assert!(SpoolBatchRange::new(3, 3).is_err());
    assert!(SpoolCapacity::new(0).is_err());
    assert!(AppendBodyLimit::new(0).is_err());
    assert!(IngestionTime::from_unix_milliseconds(i64::MAX).is_err());
}

#[test]
fn recovery_accounts_for_every_byte_at_each_point_of_interruption() {
    let maximum_batch = limit(1_024);
    let mut spool = MemorySpool::create_new(16_384);
    let first = spool.append(batch_metadata(1), b"first batch\n").range().end().position();
    let second = spool.append(batch_metadata(2), b"second batch\n").range().end().position();
    for length in 0..=spool.data.len() {
        let data = &spool.data[..length];
        let scan = scan_committed_frames(data, SpoolCheckpoint::initial(), maximum_batch)
            .expect("an interrupted append is no corruption");
        assert_eq!(scan.committed_bytes + scan.discarded_tail_bytes, length as u64);
        let committed = if length as u64 == second {
            second
        } else if length as u64 >= first {
            first
        } else {
            0
        };
        assert_eq!(scan.committed_bytes, committed);
        let kept = &data[..committed as usize];
        let again = scan_committed_frames(kept, SpoolCheckpoint::initial(), maximum_batch)
            .expect("whole frames");
        assert_eq!(again.committed_batches, scan.committed_batches);
        assert_eq!(again.committed_bytes, committed);
        assert_eq!(again.discarded_tail_bytes, 0);
    }
}

#[test]
fn a_recovered_batch_is_read_as_the_file_now_holds_it() {
    let maximum_batch = limit(1_024);
    let mut spool = MemorySpool::create_new(16_384);
    let first = spool.append(batch_metadata(1), b"first batch\n").range().end().position();
    let second = spool.append(batch_metadata(2), b"second batch\n").range().end().position();
    let corrupt = |corruption| Err(SpoolError::corrupt(corruption));
    let read = |data: &[u8], position: u64, end: u64| {
        read_recovered_batch(data, position, end, maximum_batch)
            .map(|(batch, next)| (batch.metadata().batch_id(), next))
    };
    let id = |sequence: u128| BatchId::new(identity(sequence)).expect("batch identity");
    assert_eq!(read(&spool.data, 0, second), Ok((id(1), first)));
    assert_eq!(read(&spool.data, first, second), Ok((id(2), second)));
    for end in [0, 1, HEADER_BYTES as u64, first - 1] {
        assert_eq!(read(&spool.data, 0, end), corrupt(SpoolCorruption::RecoveredRange));
    }
    for length in [0, 1, HEADER_BYTES - 1, HEADER_BYTES, first as usize - 1] {
        assert_eq!(
            read(&spool.data[..length], 0, second),
            corrupt(SpoolCorruption::CommittedDataChanged)
        );
    }
    assert_eq!(
        read(&spool.data, second, second + 1),
        corrupt(SpoolCorruption::CommittedDataChanged)
    );
    assert_eq!(
        read(&spool.data, u64::MAX, u64::MAX),
        corrupt(SpoolCorruption::CommittedDataChanged)
    );
    let mut other = spool.data.clone();
    other[0] ^= 1;
    assert_eq!(read(&other, 0, 0), corrupt(SpoolCorruption::FrameMagic));
    assert_eq!(
        SpoolCorruption::RecoveredFramePosition.message(),
        "recovered spool frame position overflows u64"
    );
}
