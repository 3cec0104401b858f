use elucid::identity::{
    BatchId, IngestionProfileRevisionId, InputId, SchemaId, SegmentId, SourceId, StoredObjectId,
};
use elucid::ingestion::checkpoint_plan::plan_checkpoint;
use elucid::ingestion::durable_record::{
    is_storable, DurableRecoveryOutput, DurableRecoveryRecord, ExpectedObject, ObjectOwner,
};
use elucid::ingestion::frame::PreparedFrame;
use elucid::ingestion::model::{
    AppendBodyLimit, BatchMetadata, IngestionTime, PinnedCatalogIdentities, RecoveryReport,
    SpoolBatchRange, SpoolCapacity, SpoolCheckpoint, SpoolReclamation,
};
use elucid::ingestion::output_log::{
    encode_frame, read_records, scan_log, OutputLogScanner, OutputRecoveryError,
    OutputRecoveryRecords, RecoveryLogCorruption, RECOVERY_FOOTER_BYTES, RECOVERY_HEADER_BYTES,
};
use elucid::ingestion::output_recovery::{
    validate_coverage, BatchOutputRequirements, BatchPositionCoverage, CheckpointPlan,
    DeadLetterRegistration, IngestionSegmentRegistration, IngestionSegmentTimes, ManagedObjectKey, ObjectDescriptor,
    OutputRecoveryAction, OutputRecoveryId, OutputRecoveryModelError, OutputRecoveryObservation,
    OutputRecoveryReclamation, OutputRecoveryRecord, OutputRecoveryRecordOutcome,
    PlannedOutputBytes, PublishedOutput, RecoveryOutput, RetainedSpoolBytes,
    UnregisteredOutputBytes,
};
use elucid::ingestion::recovery::{
    read_recovered_batch, recovery_report, scan_committed_frames, RecoveredBatches,
};
use elucid::ingestion::spool::{append_range, SpoolAccounting};

const MICROS_2026_08_20_10_00: i64 = 1_787_220_000_000_000;

fn identity(sequence: u128) -> u128 {
    0x018f_0000_0000_7000_8000_0000_0000_0000 | sequence
}

fn batch_id(sequence: u128) -> BatchId {
    BatchId::new(identity(sequence)).expect("batch identity")
}

fn recovery_id(sequence: u128) -> OutputRecoveryId {
    OutputRecoveryId::new(identity(sequence)).expect("recovery identity")
}

fn range(start: u64, end: u64) -> SpoolBatchRange {
    SpoolBatchRange::new(start, end).expect("range")
}

fn descriptor(text: &str, object_sequence: u128, bytes: &[u8], media_type: &str) -> ObjectDescriptor {
    ObjectDescriptor {
        key: ManagedObjectKey {
            text: text.to_owned(),
            object_id: StoredObjectId { value: identity(object_sequence) },
        },
        expected_byte_size: bytes.len() as u64,
        digest: *blake3::hash(bytes).as_bytes(),
        media_type: media_type.to_owned(),
        format_version: 1,
    }
}

fn segment_registration(
    segment_sequence: u128,
    object_sequence: u128,
) -> IngestionSegmentRegistration {
    IngestionSegmentRegistration {
        segment_id: SegmentId { value: identity(segment_sequence) },
        source_id: SourceId::new(identity(100)).expect("source identity"),
        schema_id: SchemaId::new(identity(103)).expect("schema identity"),
        times: IngestionSegmentTimes {
            event_day: 20_685,
            minimum_event_time_micros: MICROS_2026_08_20_10_00,
            maximum_event_time_micros: MICROS_2026_08_20_10_00 + 60_000_000,
            minimum_ingestion_time_micros: MICROS_2026_08_20_10_00 + 120_000_000,
            maximum_ingestion_time_micros: MICROS_2026_08_20_10_00 + 121_000_000,
        },
        row_count: 2,
        uncompressed_bytes: 256,
        object: descriptor(
            "test/segments/object.parquet",
            object_sequence,
            b"parquet fixture",
            "application/vnd.apache.parquet",
        ),
    }
}

fn dead_letter_registration(
    batch_sequence: u128,
    object_sequence: u128,
) -> DeadLetterRegistration {
    DeadLetterRegistration {
        input_id: InputId::new(identity(101)).expect("input identity"),
        batch_id: batch_id(batch_sequence),
        object: descriptor(
            "test/dead-letters/object.ndjson",
            object_sequence,
            b"{\"error\":\"invalid\"}\n",
            "application/x-ndjson",
        ),
    }
}

fn coverage(sequence: u128, spool_range: SpoolBatchRange, positions: &[u64]) -> BatchPositionCoverage {
    BatchPositionCoverage::new(batch_id(sequence), spool_range, positions.to_vec())
        .expect("valid coverage")
}

fn expected_object(record: &OutputRecoveryRecord) -> ExpectedObject {
    let object = record.output().object();
    ExpectedObject { key: object.key.text.clone(), media_type: object.media_type.clone() }
}

/// The record that the stored form of a record reads back as.
fn stored(record: &OutputRecoveryRecord) -> OutputRecoveryRecord {
    DurableRecoveryRecord::from_record(record)
        .into_record(&expected_object(record))
        .expect("a stored record reads back")
}

/// A log whose payloads are the places of their records in a list.
struct MemoryLog {
    data: Vec<u8>,
    stored: Vec<OutputRecoveryRecord>,
}

impl MemoryLog {
    fn new() -> Self {
        MemoryLog { data: Vec::new(), stored: Vec::new() }
    }

    fn write(&mut self, record: &OutputRecoveryRecord) {
        let payload = [b'#', self.stored.len() as u8];
        self.data.extend(
            encode_frame(record.id(), record.revision(), &payload).expect("a frame"),
        );
        self.stored.push(stored(record));
    }

    fn open(&self) -> Result<OutputRecoveryRecords, OutputRecoveryError> {
        let mut scanner = OutputLogScanner::new(self.data.len() as u64);
        while let Some(read) = scanner.next_read() {
            let start = read.start as usize;
            let bytes = &self.data[start..start + read.length as usize];
            if let Some(payload) = scanner.supply(bytes)? {
                scanner.accept(stored(&self.stored[payload[1] as usize]))?;
            }
        }
        Ok(scanner.records)
    }
}

#[test]
fn recovery_actions_never_rebuild_a_published_output() {
    let record = OutputRecoveryRecord::segment(
        recovery_id(30),
        segment_registration(31, 32),
        vec![coverage(1, range(0, 204), &[0, 1])],
    )
    .expect("segment record");

    assert_eq!(
        record
            .recovery_action(OutputRecoveryObservation::Published, RetainedSpoolBytes::Missing)
            .expect("published resolution"),
        OutputRecoveryAction::Complete
    );
    assert_eq!(
        record
            .recovery_action(
                OutputRecoveryObservation::Planned(PlannedOutputBytes::MissingAbsent),
                RetainedSpoolBytes::Available,
            )
            .expect("missing planned resolution"),
        OutputRecoveryAction::AbandonAndRebuild
    );
    assert_eq!(
        record
            .recovery_action(
                OutputRecoveryObservation::Unregistered(UnregisteredOutputBytes::Missing),
                RetainedSpoolBytes::Available,
            )
            .expect("missing unregistered resolution"),
        OutputRecoveryAction::Rebuild
    );
    assert_eq!(
        record.recovery_action(
            OutputRecoveryObservation::Planned(PlannedOutputBytes::MissingAbsent),
            RetainedSpoolBytes::Missing,
        ),
        Err(OutputRecoveryModelError::RetainedSpoolBytesMissing)
    );
}

#[test]
fn sealed_output_records_survive_restart_and_identity_replacement() {
    let original = OutputRecoveryRecord::segment(
        recovery_id(10),
        segment_registration(11, 12),
        vec![coverage(1, range(0, 204), &[0, 42])],
    )
    .expect("valid segment recovery record");
    let mut log = MemoryLog::new();
    log.write(&original);
    let reopened = log.open().expect("recover output log");
    assert_eq!(reopened.len(), 1);
    assert!(reopened.records()[0].same_as(&original));

    let replacement = original
        .replacement_segment(segment_registration(13, 14))
        .expect("replace missing output with fresh identities");
    assert_eq!(replacement.revision(), 2);
    log.write(&replacement);
    let torn = OutputRecoveryRecord::dead_letter(
        recovery_id(15),
        dead_letter_registration(1, 16),
        coverage(1, range(0, 204), &[84]),
    )
    .expect("torn dead-letter record");
    log.write(&torn);
    log.data.truncate(log.data.len() - 11);

    let recovered = log.open().expect("recover replaced output log");
    assert_eq!(recovered.len(), 1);
    assert!(recovered.records()[0].same_as(&replacement));
    assert!(!recovered.records()[0].same_as(&original));
}

#[test]
fn output_recovery_rejects_an_arbitrary_tail_without_truncating_it() {
    let record = OutputRecoveryRecord::segment(
        recovery_id(17),
        segment_registration(18, 19),
        vec![coverage(1, range(0, 204), &[0, 42])],
    )
    .expect("valid segment recovery record");
    let mut log = MemoryLog::new();
    log.write(&record);
    log.data.extend_from_slice(b"not a recovery frame");
    assert!(matches!(log.open().err(), Some(OutputRecoveryError::Corrupt(_))));
}

/// A spool whose data and checkpoint are held in memory.
struct MemorySpool {
    data: Vec<u8>,
    accounting: SpoolAccounting,
}

impl MemorySpool {
    fn create_new(capacity: SpoolCapacity) -> Self {
        MemorySpool {
            data: Vec::new(),
            accounting: SpoolAccounting::from_recovered(capacity, 0, SpoolCheckpoint::initial()),
        }
    }

    fn append(&mut self, sequence: u128) -> SpoolBatchRange {
        let body = format!("batch {sequence}\n").into_bytes();
        let limit = AppendBodyLimit::new(body.len() as u64).expect("body limit");
        let reservation = self.accounting.reserve(limit).expect("reserve append");
        self.accounting.check_append(&reservation, &body).expect("append fits");
        let prepared = PreparedFrame::new(batch_metadata(sequence), &body).expect("frame");
        let range =
            append_range(self.data.len() as u64, prepared.stored_bytes()).expect("append range");
        self.data.extend_from_slice(prepared.header());
        self.data.extend_from_slice(&body);
        self.data.extend_from_slice(prepared.footer());
        self.accounting
            .commit_reservation(reservation.reserved_bytes, prepared.stored_bytes())
            .expect("commit");
        range
    }

    fn advance_checkpoint(&mut self, plan: CheckpointPlan) {
        let checkpoint = self.accounting.check_checkpoint_plan(plan).expect("a checkpoint plan");
        self.accounting.install_checkpoint(checkpoint);
    }

    fn reclaim_checkpointed(&mut self) -> SpoolReclamation {
        let reclamation = self.accounting.reclaim_checkpointed().expect("a reclamation");
        if reclamation != SpoolReclamation::Deferred {
            self.accounting.install_checkpoint(SpoolCheckpoint::initial());
            self.data.clear();
            self.accounting.data_truncated();
        }
        reclamation
    }

    /// Recovers the spool from its data and its checkpoint.
    fn recover(
        self,
        capacity: SpoolCapacity,
        maximum_batch: AppendBodyLimit,
    ) -> (MemorySpool, RecoveredBatches, RecoveryReport) {
        let checkpoint = self.accounting.checkpoint().expect("checkpoint");
        let scan = scan_committed_frames(&self.data, checkpoint, maximum_batch).expect("scan");
        let report = recovery_report(checkpoint, scan, capacity, maximum_batch).expect("report");
        let accounting =
            SpoolAccounting::from_recovered(capacity, report.committed_bytes(), checkpoint);
        let batches = RecoveredBatches::new(report, maximum_batch);
        (MemorySpool { data: self.data, accounting }, batches, report)
    }
}

fn batch_metadata(sequence: u128) -> BatchMetadata {
    BatchMetadata::new(
        batch_id(sequence),
        PinnedCatalogIdentities::new(
            SourceId::new(identity(100)).expect("source identity"),
            InputId::new(identity(101)).expect("input identity"),
            IngestionProfileRevisionId::new(identity(102)).expect("profile identity"),
            SchemaId::new(identity(103)).expect("schema identity"),
        ),
        IngestionTime::from_unix_milliseconds(1_776_945_600_000 + sequence as i64)
            .expect("ingestion time"),
    )
}

#[test]
fn checkpoint_waits_for_every_accepted_and_rejected_occurrence() {
    let capacity = SpoolCapacity::new(64 * 1024).expect("spool capacity");
    let maximum_batch = AppendBodyLimit::new(1_024).expect("maximum batch");
    let mut spool = MemorySpool::create_new(capacity);
    let first = spool.append(1);
    let second = spool.append(2);
    let segment = || {
        OutputRecoveryRecord::segment(
            recovery_id(20),
            segment_registration(21, 22),
            vec![coverage(1, first, &[0]), coverage(2, second, &[0])],
        )
        .expect("segment record")
    };
    let dead_letter = |id: u128, batch: u128, object: u128, at: SpoolBatchRange| {
        OutputRecoveryRecord::dead_letter(
            recovery_id(id),
            dead_letter_registration(batch, object),
            coverage(batch, at, &[17]),
        )
        .expect("dead-letter record")
    };
    let published = |record: OutputRecoveryRecord| {
        PublishedOutput::resolve(record, OutputRecoveryObservation::Published).expect("published")
    };
    let requirements = vec![
        BatchOutputRequirements::new(batch_id(1), first, vec![0, 17]).expect("requirements"),
        BatchOutputRequirements::new(batch_id(2), second, vec![0, 17]).expect("requirements"),
    ];
    let mut log = MemoryLog::new();
    let mut records = OutputRecoveryRecords::new();
    for record in [segment(), dead_letter(23, 1, 24, first), dead_letter(25, 2, 26, second)] {
        assert_eq!(
            records.check_record(&record, &record.output().object().key),
            Ok(OutputRecoveryRecordOutcome::Recorded)
        );
        log.write(&record);
        records.install(record);
    }

    assert_eq!(
        plan_checkpoint(SpoolCheckpoint::initial(), &requirements, &[published(segment())]),
        Ok(None)
    );
    let first_plan = plan_checkpoint(
        spool.accounting.checkpoint().expect("current checkpoint"),
        &requirements,
        &[published(segment()), published(dead_letter(23, 1, 24, first))],
    )
    .expect("plan first checkpoint")
    .expect("first batch is complete");
    assert_eq!(first_plan.current(), SpoolCheckpoint::initial());
    assert_eq!(first_plan.target(), first.end());
    spool.advance_checkpoint(first_plan);

    let (mut spool, mut batches, report) = spool.recover(capacity, maximum_batch);
    assert_eq!(report.checkpoint(), first.end());
    assert_eq!(report.pending_batches(), 1);
    let position = batches.next_position().expect("read pending batch").expect("second batch");
    let outcome =
        read_recovered_batch(&spool.data, position, batches.end, batches.body_limit);
    let recovered = batches.accept(outcome).expect("second batch");
    assert_eq!(recovered.metadata().batch_id(), batch_id(2));

    let final_plan = plan_checkpoint(
        spool.accounting.checkpoint().expect("recovered checkpoint"),
        &requirements[1..],
        &[published(segment()), published(dead_letter(25, 2, 26, second))],
    )
    .expect("plan final checkpoint")
    .expect("second batch is complete");
    assert_eq!(final_plan.target(), second.end());
    spool.advance_checkpoint(final_plan);

    let reclaimed = spool.reclaim_checkpointed();
    assert_eq!(reclaimed.reclaimed_bytes(), Some(second.end().position()));
    assert_eq!(
        records.reclaim(reclaimed).expect("reclaim covered output records").reclaimed_records(),
        Some(3)
    );
    log = MemoryLog::new();
    assert_eq!(spool.accounting.checkpoint().expect("reset checkpoint").position(), 0);
    assert_eq!(spool.accounting.usage().expect("reclaimed usage").committed_bytes(), 0);
    assert_eq!(records.len(), 0);
    assert_eq!(log.open().expect("recover reclaimed output log").len(), 0);
    let (_, _, empty) = spool.recover(capacity, maximum_batch);
    assert_eq!(empty.committed_batches(), 0);
    assert_eq!(empty.pending_batches(), 0);
}

#[test]
fn records_are_tested_for_reclamation_before_they_are_removed() {
    let record = || {
        OutputRecoveryRecord::segment(
            recovery_id(60),
            segment_registration(61, 62),
            vec![coverage(1, range(0, 204), &[0, 1])],
        )
        .expect("segment record")
    };
    let mut records = OutputRecoveryRecords::new();
    records.install(record());
    assert_eq!(
        records.check_reclaim(SpoolReclamation::Deferred),
        Ok(OutputRecoveryReclamation::Deferred)
    );
    assert_eq!(
        records.check_reclaim(SpoolReclamation::Reclaimed { bytes: 203 }),
        Err(OutputRecoveryError::Conflict)
    );
    assert_eq!(
        records.check_reclaim(SpoolReclamation::Reclaimed { bytes: 204 }),
        Ok(OutputRecoveryReclamation::Reclaimed { records: 1 })
    );
    assert_eq!(records.len(), 1);
    assert_eq!(
        records.reclaim(SpoolReclamation::Reclaimed { bytes: 203 }),
        Err(OutputRecoveryError::Conflict)
    );
    assert_eq!(records.len(), 1);
    assert_eq!(
        records.reclaim(SpoolReclamation::Deferred),
        Ok(OutputRecoveryReclamation::Deferred)
    );
    assert_eq!(records.len(), 1);
    records.clear();
    assert_eq!(records.len(), 0);
    assert!(records.get(recovery_id(60)).is_none());
}

#[test]
fn too_many_positions_over_valid_batches_exceed_the_position_limit() {
    let positions = |count: u64| (0..count).collect::<Vec<u64>>();
    let item = |batch: u128, at: SpoolBatchRange, count: u64| {
        BatchPositionCoverage::new(batch_id(batch), at, positions(count)).expect("coverage")
    };
    let dense = [item(1, range(0, 204), 60_000), item(2, range(204, 408), 40_001)];
    assert_eq!(
        validate_coverage(&dense.into_iter().collect()),
        Err(OutputRecoveryModelError::CoveredPositionLimitExceeded)
    );
    let full = [item(1, range(0, 204), 60_000), item(2, range(204, 408), 40_000)];
    assert_eq!(validate_coverage(&full.into_iter().collect()), Ok(100_000));
    let repeated = [item(1, range(0, 204), 1), item(1, range(204, 408), 1)];
    assert_eq!(
        validate_coverage(&repeated.into_iter().collect()),
        Err(OutputRecoveryModelError::CoveredBatchesOverlap)
    );
    let overlapping = [item(1, range(0, 204), 1), item(2, range(203, 408), 1)];
    assert_eq!(
        validate_coverage(&overlapping.into_iter().collect()),
        Err(OutputRecoveryModelError::CoveredBatchesOverlap)
    );
    let both = [item(1, range(0, 204), 60_000), item(1, range(204, 408), 40_001)];
    assert_eq!(
        validate_coverage(&both.into_iter().collect()),
        Err(OutputRecoveryModelError::CoveredPositionLimitExceeded)
    );
}

#[test]
fn a_stored_record_holds_the_texts_of_its_identities() {
    let record = OutputRecoveryRecord::segment(
        recovery_id(70),
        segment_registration(71, 72),
        vec![coverage(1, range(0, 204), &[0, 1])],
    )
    .expect("segment record");
    let durable = DurableRecoveryRecord::from_record(&record);
    assert_eq!(durable.recovery_id, "018f0000-0000-7000-8000-000000000046");
    assert_eq!(durable.revision, 1);
    assert_eq!(durable.coverage.len(), 1);
    assert_eq!(durable.coverage[0].batch_id, "018f0000-0000-7000-8000-000000000001");
    assert_eq!(durable.coverage[0].spool_start, 0);
    assert_eq!(durable.coverage[0].spool_end, 204);
    assert_eq!(durable.coverage[0].positions, vec![0, 1]);
    match durable.output {
        DurableRecoveryOutput::Segment {
            segment_id, source_id, schema_id, event_day, row_count, object, ..
        } => {
            assert_eq!(segment_id, "018f0000-0000-7000-8000-000000000047");
            assert_eq!(source_id, "018f0000-0000-7000-8000-000000000064");
            assert_eq!(schema_id, "018f0000-0000-7000-8000-000000000067");
            assert_eq!(event_day, "2026-08-20");
            assert_eq!(row_count, 2);
            assert_eq!(object.object_id, "018f0000-0000-7000-8000-000000000048");
            assert_eq!(object.object_key, "test/segments/object.parquet");
        }
        DurableRecoveryOutput::DeadLetter { .. } => panic!("a segment was stored"),
    }
}

#[test]
fn a_stored_record_without_an_owner_is_refused_in_order() {
    let record = OutputRecoveryRecord::segment(
        recovery_id(75),
        segment_registration(76, 77),
        vec![coverage(1, range(0, 204), &[0, 1])],
    )
    .expect("segment record");
    let spoiled = |revision: u64| {
        let mut durable = DurableRecoveryRecord::from_record(&record);
        durable.revision = revision;
        if let DurableRecoveryOutput::Segment { segment_id, .. } = &mut durable.output {
            *segment_id = "no identity".to_owned();
        }
        assert_eq!(durable.output.object_owner().err(), Some(RecoveryLogCorruption::UuidText));
        durable
    };
    for (revision, fault) in
        [(0, RecoveryLogCorruption::RevisionZero), (1, RecoveryLogCorruption::UuidText)]
    {
        let nothing = ExpectedObject { key: String::new(), media_type: String::new() };
        assert_eq!(spoiled(revision).into_record(&nothing).err(), Some(fault));
        assert_eq!(spoiled(revision).into_record(&expected_object(&record)).err(), Some(fault));
    }
}

#[test]
fn a_log_of_revisions_is_read_back_to_the_latest_of_each() {
    let mut log = MemoryLog::new();
    let mut current = OutputRecoveryRecord::segment(
        recovery_id(80),
        segment_registration(81, 82),
        vec![coverage(1, range(0, 204), &[0, 1])],
    )
    .expect("segment record");
    let other = OutputRecoveryRecord::dead_letter(
        recovery_id(79),
        dead_letter_registration(2, 78),
        coverage(2, range(204, 408), &[17]),
    )
    .expect("dead-letter record");
    log.write(&current);
    log.write(&other);
    for sequence in 0..3 {
        current = current
            .replacement_segment(segment_registration(90 + 2 * sequence, 91 + 2 * sequence))
            .expect("a replacement");
        log.write(&current);
    }
    let committed = log.data.len() as u64;
    log.data.extend_from_slice(&log.data.clone()[..30]);
    let recovered = log.open().expect("recover the log");
    assert_eq!(recovered.len(), 2);
    assert!(recovered.records()[0].same_as(&other));
    assert!(recovered.records()[1].same_as(&current));
    assert_eq!(recovered.records()[1].revision(), 4);
    let (entries, kept) = scan_log(&log.data).expect("scan the log");
    assert_eq!(entries.len(), 5);
    assert_eq!(kept, committed);
    let spelled = log.stored.iter().map(stored).collect();
    let read = read_records(&entries, spelled).expect("read the records back");
    assert_eq!(read.len(), 2);
    assert!(read.records()[0].same_as(&other));
    assert!(read.records()[1].same_as(&current));
    let mut swapped: Vec<OutputRecoveryRecord> = log.stored.iter().map(stored).collect();
    swapped.swap(0, 1);
    assert_eq!(
        read_records(&entries, swapped).err(),
        Some(OutputRecoveryError::Corrupt(RecoveryLogCorruption::Identities))
    );
    let later = scan_log(&log.data).expect("scan the log").0.into_iter().skip(2).collect();
    assert_eq!(
        read_records(&later, log.stored.iter().skip(2).map(stored).collect()).err(),
        Some(OutputRecoveryError::Corrupt(RecoveryLogCorruption::Revisions))
    );

    log.data.truncate(committed as usize);
    log.data.push(b'#');
    assert_eq!(
        scan_log(&log.data).err(),
        Some(OutputRecoveryError::Corrupt(RecoveryLogCorruption::IncompletePrefix))
    );
    log.data.truncate(committed as usize);
    log.data.extend_from_slice(&[b'#'; 200]);
    assert_eq!(
        scan_log(&log.data).err(),
        Some(OutputRecoveryError::Corrupt(RecoveryLogCorruption::Magic))
    );
}

#[test]
fn an_output_is_recorded_once() {
    let record = || {
        OutputRecoveryRecord::segment(
            recovery_id(40),
            segment_registration(41, 42),
            vec![coverage(1, range(0, 204), &[0, 1])],
        )
        .expect("segment record")
    };
    let key = ManagedObjectKey {
        text: "test/segments/object.parquet".to_owned(),
        object_id: StoredObjectId { value: identity(42) },
    };
    let mut records = OutputRecoveryRecords::new();
    assert_eq!(
        records.check_record(&record(), &key),
        Ok(OutputRecoveryRecordOutcome::Recorded)
    );
    records.install(record());
    assert_eq!(
        records.check_record(&record(), &key),
        Ok(OutputRecoveryRecordOutcome::AlreadyRecorded)
    );
    let other = OutputRecoveryRecord::segment(
        recovery_id(43),
        segment_registration(44, 42),
        vec![coverage(1, range(0, 204), &[2, 3])],
    )
    .expect("segment record");
    assert_eq!(records.check_record(&other, &key), Err(OutputRecoveryError::Conflict));
    let elsewhere = ManagedObjectKey {
        text: "elsewhere".to_owned(),
        object_id: StoredObjectId { value: identity(42) },
    };
    assert_eq!(records.check_record(&record(), &elsewhere), Err(OutputRecoveryError::Conflict));
}

#[test]
fn model_faults_are_told_apart() {
    assert!(OutputRecoveryId::new(5).is_err());
    assert_eq!(
        BatchPositionCoverage::new(batch_id(1), range(0, 1), vec![]).err(),
        Some(OutputRecoveryModelError::CoveredPositionsMustNotBeEmpty)
    );
    assert_eq!(
        BatchPositionCoverage::new(batch_id(1), range(0, 1), vec![3, 3]).err(),
        Some(OutputRecoveryModelError::PositionsMustIncrease)
    );
    assert_eq!(
        OutputRecoveryRecord::segment(
            recovery_id(1),
            segment_registration(2, 3),
            vec![coverage(1, range(0, 204), &[0])],
        )
        .err(),
        Some(OutputRecoveryModelError::SegmentRowCoverageMismatch)
    );
    assert_eq!(
        OutputRecoveryRecord::dead_letter(
            recovery_id(1),
            dead_letter_registration(1, 16),
            coverage(2, range(0, 204), &[84]),
        )
        .err(),
        Some(OutputRecoveryModelError::DeadLetterBatchMismatch)
    );
    let record = OutputRecoveryRecord::segment(
        recovery_id(1),
        segment_registration(2, 3),
        vec![coverage(1, range(0, 204), &[0, 1])],
    )
    .expect("segment record");
    assert_eq!(
        record.replacement_segment(segment_registration(2, 9)).err(),
        Some(OutputRecoveryModelError::ReplacementIdentitiesMustChange)
    );
    assert_eq!(
        PublishedOutput::resolve(record, OutputRecoveryObservation::Uploaded).err(),
        Some(OutputRecoveryModelError::OutputIsNotPublished)
    );
}

#[test]
fn coverage_follows_the_spool() {
    let record = OutputRecoveryRecord::segment(
        recovery_id(1),
        segment_registration(2, 3),
        vec![coverage(2, range(204, 408), &[0]), coverage(1, range(0, 204), &[0])],
    )
    .expect("segment record");
    assert_eq!(record.coverage()[0].batch_id(), batch_id(1));
    assert_eq!(record.coverage()[1].batch_id(), batch_id(2));
}

#[test]
fn stored_records_spell_their_values() {
    let record = OutputRecoveryRecord::segment(
        recovery_id(50),
        segment_registration(51, 52),
        vec![coverage(1, range(0, 204), &[0, 1])],
    )
    .expect("segment record");
    let durable = DurableRecoveryRecord::from_record(&record);
    assert_eq!(durable.recovery_id, "018f0000-0000-7000-8000-000000000032");
    assert_eq!(durable.revision, 1);
    let DurableRecoveryOutput::Segment { event_day, segment_id, .. } = &durable.output else {
        panic!("a segment stays a segment");
    };
    assert_eq!(event_day, "2026-08-20");
    assert_eq!(segment_id, "018f0000-0000-7000-8000-000000000033");
    assert_eq!(
        durable.output.object_owner(),
        Ok((
            ObjectOwner::Segment(SegmentId { value: identity(51) }),
            StoredObjectId { value: identity(52) },
        ))
    );
    assert!(matches!(stored(&record).output(), RecoveryOutput::Segment(_)));
    assert!(stored(&record).same_as(&record));
    assert!(is_storable(&record));
    let mut elsewhere = segment_registration(51, 52);
    elsewhere.times.event_day += 1;
    let other = OutputRecoveryRecord::segment(
        recovery_id(50),
        elsewhere,
        vec![coverage(1, range(0, 204), &[0, 1])],
    )
    .expect("segment record");
    assert!(!is_storable(&other));

    let mut changed = DurableRecoveryRecord::from_record(&record);
    changed.recovery_id = "not a uuid".to_owned();
    assert_eq!(
        changed.into_record(&expected_object(&record)).err(),
        Some(RecoveryLogCorruption::UuidText)
    );
    let mut changed = DurableRecoveryRecord::from_record(&record);
    changed.revision = 0;
    assert_eq!(
        changed.into_record(&expected_object(&record)).err(),
        Some(RecoveryLogCorruption::RevisionZero)
    );
    let mut changed = DurableRecoveryRecord::from_record(&record);
    changed.coverage[0].positions = vec![0, 1, 2];
    assert_eq!(
        changed.into_record(&expected_object(&record)).err(),
        Some(RecoveryLogCorruption::SegmentRows)
    );
    assert_eq!(RecoveryLogCorruption::EventDay.message(), "recovery event day is invalid");
}

#[test]
fn log_frames_have_a_fixed_layout() {
    let frame = encode_frame(recovery_id(1), 7, b"payload").expect("a frame");
    assert_eq!(frame.len(), RECOVERY_HEADER_BYTES + 7 + RECOVERY_FOOTER_BYTES);
    assert_eq!(&frame[..8], b"ELUCOR01");
    assert_eq!(&frame[RECOVERY_HEADER_BYTES..RECOVERY_HEADER_BYTES + 7], b"payload");
}

#[test]
fn recorded_entries_are_read_back_up_to_an_interrupted_one() {
    let mut log = encode_frame(recovery_id(1), 1, b"one").expect("a frame");
    log.extend(encode_frame(recovery_id(2), 5, b"two").expect("a frame"));
    let committed = log.len();
    let torn = encode_frame(recovery_id(3), 1, b"three").expect("a frame");
    for length in 0..torn.len() {
        let mut file = log.clone();
        file.extend_from_slice(&torn[..length]);
        let (entries, bytes) = scan_log(&file).expect("a log");
        assert_eq!(bytes, committed as u64);
        assert_eq!(entries.len(), 2);
        assert_eq!(entries[0].payload, b"one");
        assert_eq!(entries[1].recovery_id, identity(2));
        assert_eq!(entries[1].revision, 5);
        assert_eq!(entries[1].payload, b"two");
    }
    log[committed - 1] ^= 1;
    assert_eq!(
        scan_log(&log).err(),
        Some(OutputRecoveryError::Corrupt(RecoveryLogCorruption::CommitFooter))
    );
}
