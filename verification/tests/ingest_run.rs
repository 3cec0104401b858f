use elucid::ingest::batcher::ColumnBatch;
use elucid::ingest::dead_letter_writer::{format_dead_letter, DeadLetterWriter};
use elucid::ingest::event::{EventContext, RawEvent};
use elucid::ingest::line_source::{LineOutcome, LineSource, LineSourceEventContext};
use elucid::ingest::run::{Ingest, IngestAction, IngestSummary};
use elucid::ingest::schema::{ColumnType, TableField, TableName, TableSchema};
use elucid::ingest::sink::{SinkState, SinkStep};
use elucid::ingest::stage_error::StageError;
use elucid::ingest::storage::{object_path, parquet_file_name, storage_prefix};
use elucid::ingest::wal::{NoopWal, Offset};
use elucid::json::JsonValue;

fn test_schema() -> TableSchema {
    let field = |name: &str, ty: ColumnType, nullable: bool| TableField {
        name: name.to_owned(),
        ty,
        nullable,
    };
    TableSchema {
        fields: vec![
            field("@timestamp", ColumnType::Timestamp, false),
            field("msg", ColumnType::Utf8, true),
            field("@rest", ColumnType::Utf8, true),
        ],
        time_source: Some("_ts".to_owned()),
    }
}

struct Outcome {
    summary: IngestSummary,
    batches: Vec<ColumnBatch>,
    dead_letters: Vec<String>,
    checkpointed: Offset,
}

fn ingest(input: &str, batch_size: usize, max_line_byte_count: usize) -> Result<Outcome, StageError> {
    let mut run: Ingest<LineSourceEventContext> = Ingest::new(test_schema(), batch_size)?;
    let mut source = LineSource::new(max_line_byte_count);
    let mut lines = input.lines();
    let mut wal = NoopWal::new();
    let mut writer: DeadLetterWriter<Vec<String>> = DeadLetterWriter::new(Vec::new());
    let mut batches = Vec::new();
    let mut action = IngestAction::Read;
    loop {
        action = match action {
            IngestAction::Read => {
                let item = loop {
                    match lines.next().map(|line| source.accept(line)) {
                        None => break None,
                        Some(LineOutcome::Blank) => {}
                        Some(LineOutcome::Read(item)) => break Some(item),
                    }
                };
                match item {
                    Some(item) => run.source_item(item)?,
                    None => run.source_ended()?,
                }
            }
            IngestAction::Append(raw) => {
                let offset = wal.append(&raw);
                run.wal_appended(offset)?
            }
            IngestAction::Send(batch) => {
                batches.push(batch);
                run.batch_sent()
            }
            IngestAction::Checkpoint(offset) => {
                wal.checkpoint(offset);
                run.checkpointed()
            }
            IngestAction::Reject { raw, error, context } => {
                writer.inner.push(format_dead_letter(&raw, &error, context.to_json()));
                writer.record_written();
                run.dead_letter_written()
            }
            IngestAction::Close => {
                let summary = run.sink_closed();
                assert_eq!(writer.count(), summary.dead_letter_count);
                return Ok(Outcome {
                    summary,
                    batches,
                    dead_letters: writer.into_inner(),
                    checkpointed: wal.checkpointed(),
                });
            }
        };
    }
}

#[test]
fn five_valid_events_batch_size_three_two_files() {
    let input = r#"{"_ts":"2025-01-01T00:00:00Z","msg":"a"}
{"_ts":"2025-01-01T00:00:01Z","msg":"b"}
{"_ts":"2025-01-01T00:00:02Z","msg":"c"}
{"_ts":"2025-01-01T00:00:03Z","msg":"d"}
{"_ts":"2025-01-01T00:00:04Z","msg":"e"}
"#;
    let outcome = ingest(input, 3, 1024 * 1024).expect("pipeline");
    assert_eq!(outcome.summary.read_line_count, 5);
    assert_eq!(outcome.summary.ingested_row_count, 5);
    assert_eq!(outcome.summary.dead_letter_count, 0);
    assert_eq!(outcome.summary.written_file_count, 0);
    assert_eq!(outcome.batches.len(), 2);
    assert_eq!(outcome.batches[0].row_count, 3);
    assert_eq!(outcome.batches[1].row_count, 2);
    assert_eq!(outcome.checkpointed, Offset(4));
}

#[test]
fn three_valid_one_bad_json_three_rows_one_dead() {
    let input = r#"{"_ts":"2025-01-01T00:00:00Z","msg":"a"}
NOT_JSON
{"_ts":"2025-01-01T00:00:01Z","msg":"b"}
{"_ts":"2025-01-01T00:00:02Z","msg":"c"}
"#;
    let outcome = ingest(input, 10, 1024 * 1024).expect("pipeline");
    assert_eq!(outcome.summary.read_line_count, 4);
    assert_eq!(outcome.summary.ingested_row_count, 3);
    assert_eq!(outcome.summary.dead_letter_count, 1);
    assert_eq!(outcome.batches.len(), 1);
    let entry: serde_json::Value = serde_json::from_str(&outcome.dead_letters[0]).expect("JSON");
    assert_eq!(entry["@message"], "NOT_JSON");
    assert_eq!(entry["@context"]["line_no"], 2);
}

#[test]
fn empty_input_zero_files_zero_rows() {
    let outcome = ingest("", 10, 1024 * 1024).expect("pipeline");
    assert_eq!(outcome.summary.read_line_count, 0);
    assert_eq!(outcome.summary.ingested_row_count, 0);
    assert_eq!(outcome.summary.dead_letter_count, 0);
    assert_eq!(outcome.batches.len(), 0);
}

#[test]
fn lines_that_are_too_long_are_read_and_passed_over() {
    let input = "{\"_ts\":1}\n\n{\"_ts\":2,\"msg\":\"far too long for the limit\"}\n{\"_ts\":3}\n";
    let outcome = ingest(input, 10, 16).expect("pipeline");
    assert_eq!(outcome.summary.read_line_count, 3);
    assert_eq!(outcome.summary.ingested_row_count, 2);
    assert_eq!(outcome.summary.dead_letter_count, 0);
}

#[test]
fn failures_of_the_source_end_the_run() {
    let mut run: Ingest<LineSourceEventContext> = Ingest::new(test_schema(), 2).expect("run");
    let error = run
        .source_item(Err(StageError::Wal("broken pipe".to_owned())))
        .expect_err("the run fails");
    assert_eq!(error, StageError::Wal("broken pipe".to_owned()));
}

#[test]
fn rows_can_be_accepted_one_by_one() {
    let mut run: Ingest<LineSourceEventContext> = Ingest::new(test_schema(), 2).expect("run");
    let event = RawEvent {
        raw: "raw".to_owned(),
        context: LineSourceEventContext {
            line_no: 1,
            file_path: None,
        },
    };
    assert!(matches!(run.source_item(Ok(event)), Ok(IngestAction::Append(_))));
    let rejected = run.accept_row(Offset(9), Err(StageError::Parse("no".to_owned())));
    match rejected {
        Ok(IngestAction::Reject { raw, error, context }) => {
            assert_eq!(raw, "raw");
            assert_eq!(error, StageError::Parse("no".to_owned()));
            assert_eq!(context.line_no, 1);
        }
        other => panic!("expected a rejection, got {other:?}"),
    }
    assert_eq!(run.last_offset, Offset(9));
}

fn read_all(text: &str, max: usize) -> Vec<Result<RawEvent<LineSourceEventContext>, StageError>> {
    let mut source = LineSource::new(max);
    let mut events = Vec::new();
    for line in text.lines() {
        if let LineOutcome::Read(item) = source.accept(line) {
            events.push(item);
        }
    }
    events
}

#[test]
fn three_lines_three_events() {
    let events: Vec<_> = read_all("line1\nline2\nline3\n", 1024)
        .into_iter()
        .filter_map(|r| r.ok())
        .collect();
    assert_eq!(events.len(), 3);
    assert_eq!(events[0].raw, "line1");
    assert_eq!(events[0].context.line_no, 1);
    assert_eq!(events[1].raw, "line2");
    assert_eq!(events[1].context.line_no, 2);
    assert_eq!(events[2].raw, "line3");
    assert_eq!(events[2].context.line_no, 3);
}

#[test]
fn blank_lines_skipped() {
    let events: Vec<_> = read_all("line1\n\n \t\u{3000}\nline2\n", 1024)
        .into_iter()
        .filter_map(|r| r.ok())
        .collect();
    assert_eq!(events.len(), 2);
    assert_eq!(events[0].context.line_no, 1);
    assert_eq!(events[1].context.line_no, 2);
}

#[test]
fn oversized_line_error_then_continue() {
    let events = read_all("ok\nTHIS_IS_A_VERY_LONG_LINE\nalso_ok\n", 10);
    assert_eq!(events.len(), 3);
    assert!(events[0].is_ok());
    assert!(events[1].is_err());
    assert!(events[2].is_ok());
    assert_eq!(events[2].as_ref().unwrap().raw, "also_ok");
}

#[test]
fn empty_input() {
    assert!(read_all("", 1024).is_empty());
}

#[test]
fn whitespace_at_the_ends_of_lines_is_removed() {
    for text in ["  a b \t", "\u{2003}a b\u{a0}", "a b"] {
        let events = read_all(text, 1024);
        assert_eq!(events[0].as_ref().unwrap().raw, "a b");
        assert_eq!(text.trim(), "a b");
    }
}

#[test]
fn append_returns_strictly_increasing_offsets() {
    let mut wal = NoopWal::new();
    let o0 = wal.append("");
    let o1 = wal.append("");
    let o2 = wal.append("");
    assert!(o0 < o1);
    assert!(o1 < o2);
    assert_eq!(o0, Offset(0));
    assert_eq!(o1, Offset(1));
    assert_eq!(o2, Offset(2));
}

#[test]
fn checkpoint_updates_checkpointed_offset() {
    let mut wal = NoopWal::new();
    let o = wal.append("");
    assert_eq!(wal.checkpointed(), Offset(0));
    wal.checkpoint(o);
    assert_eq!(wal.checkpointed(), o);
}

#[test]
fn multiple_checkpoints_offset_only_goes_up() {
    let mut wal = NoopWal::default();
    let o0 = wal.append("");
    let o1 = wal.append("");
    let o2 = wal.append("");

    wal.checkpoint(o2);
    assert_eq!(wal.checkpointed(), Offset(2));

    wal.checkpoint(o0);
    assert_eq!(wal.checkpointed(), Offset(2), "checkpoint should not go down");

    wal.checkpoint(o1);
    assert_eq!(wal.checkpointed(), Offset(2), "checkpoint should stay at max");
}

#[test]
fn checkpoint_with_zero_offset_no_events() {
    let mut wal = NoopWal::new();
    assert_eq!(wal.checkpointed(), Offset(0));
    wal.checkpoint(Offset(0));
    assert_eq!(wal.checkpointed(), Offset(0));
}

fn write(writer: &mut DeadLetterWriter<Vec<u8>>, raw: &str, error: &StageError, line_no: u64) {
    let context = LineSourceEventContext {
        line_no,
        file_path: None,
    };
    let line = format_dead_letter(raw, error, context.to_json());
    writer.inner.extend_from_slice(line.as_bytes());
    writer.record_written();
}

fn parse_entries(data: &[u8]) -> Vec<serde_json::Value> {
    let s = String::from_utf8(data.to_vec()).expect("valid UTF-8");
    s.lines()
        .filter(|l| !l.is_empty())
        .map(|l| serde_json::from_str(l).expect("valid JSON"))
        .collect()
}

#[test]
fn write_single_entry_has_required_fields() {
    let mut writer = DeadLetterWriter::new(Vec::new());
    let error = StageError::Parse("bad token".to_owned());
    write(&mut writer, r#"{"a":1}"#, &error, 1);

    let entries = parse_entries(&writer.into_inner());
    assert_eq!(entries.len(), 1);
    assert_eq!(entries[0]["@message"], r#"{"a":1}"#);
    assert_eq!(entries[0]["@error"], "JSON parse error: bad token");
    assert!(entries[0]["@context"]["line_no"].is_number());
}

#[test]
fn write_three_entries_count_and_lines() {
    let mut writer = DeadLetterWriter::new(Vec::new());
    write(&mut writer, "line1", &StageError::Parse("e1".to_owned()), 1);
    write(&mut writer, "line2", &StageError::Parse("e2".to_owned()), 1);
    write(&mut writer, "line3", &StageError::Parse("e3".to_owned()), 1);

    assert_eq!(writer.count(), 3);

    let entries = parse_entries(writer.inner());
    assert_eq!(entries.len(), 3);
    assert_eq!(entries[0]["@message"], "line1");
    assert_eq!(entries[1]["@message"], "line2");
    assert_eq!(entries[2]["@message"], "line3");
}

#[test]
fn a_line_that_the_output_does_not_take_is_not_counted() {
    let mut writer = DeadLetterWriter::new(String::new());
    let taken: [Result<(), &str>; 4] = [Ok(()), Err("full"), Ok(()), Err("closed")];
    for (index, outcome) in taken.into_iter().enumerate() {
        let raw = format!("line\n{index}");
        let error = StageError::Parse("bad".to_owned());
        let line = format_dead_letter(&raw, &error, JsonValue::Null);
        if outcome.is_ok() {
            writer.inner.push_str(&line);
        }
        assert_eq!(writer.finish_write(outcome), outcome);
    }
    assert_eq!(writer.count(), 2);
    assert_eq!(
        writer.into_inner(),
        "{\"@context\":null,\"@error\":\"JSON parse error: bad\",\"@message\":\"line\\n0\"}\n\
         {\"@context\":null,\"@error\":\"JSON parse error: bad\",\"@message\":\"line\\n2\"}\n"
    );
}

#[test]
fn write_context_contains_line_number() {
    let mut writer = DeadLetterWriter::new(Vec::new());
    write(&mut writer, "raw", &StageError::Parse("err".to_owned()), 99);
    let entries = parse_entries(&writer.into_inner());
    assert_eq!(entries[0]["@context"]["line_no"], 99);
}

#[test]
fn into_inner_returns_all_data() {
    let mut writer = DeadLetterWriter::new(Vec::new());
    write(&mut writer, "first", &StageError::Parse("a".to_owned()), 1);
    write(&mut writer, "second", &StageError::Parse("b".to_owned()), 1);

    let s = String::from_utf8(writer.into_inner()).expect("UTF-8");
    assert_eq!(s.lines().count(), 2);
}

#[test]
fn write_escapes_special_characters() {
    let mut writer = DeadLetterWriter::new(Vec::new());
    let raw = r#"has "quotes" and	tab"#;
    let error = StageError::Normalization("missing field 'ts'".to_owned());
    write(&mut writer, raw, &error, 1);

    let entries = parse_entries(&writer.into_inner());
    assert_eq!(entries.len(), 1);
    assert_eq!(entries[0]["@message"], "has \"quotes\" and\ttab");
}

#[test]
fn dead_letters_are_one_exact_line() {
    let context = LineSourceEventContext {
        line_no: 7,
        file_path: Some("in.log".to_owned()),
    };
    assert_eq!(
        format_dead_letter("raw", &StageError::Write("full".to_owned()), context.to_json()),
        "{\"@context\":{\"file_path\":\"in.log\",\"line_no\":7},\"@error\":\"write error: full\",\"@message\":\"raw\"}\n"
    );
}

#[test]
fn stage_errors_are_shown_with_their_stage() {
    let shown: Vec<String> = [
        StageError::LineTooLarge { size: 11, max: 5 },
        StageError::Parse("a".to_owned()),
        StageError::Normalization("b".to_owned()),
        StageError::Wal("c".to_owned()),
        StageError::Write("d".to_owned()),
    ]
    .iter()
    .map(|error| error.to_string())
    .collect();
    assert_eq!(
        shown,
        [
            "line too large: 11 bytes (max 5)",
            "JSON parse error: a",
            "normalization error: b",
            "WAL error: c",
            "write error: d",
        ]
    );
}

#[test]
fn from_url_memory() {
    let url = url::Url::parse("memory:///data/prefix").expect("valid URL");
    assert_eq!(storage_prefix(url.path()), "data/prefix");
}

#[test]
fn from_url_memory_empty_prefix() {
    let url = url::Url::parse("memory:///").expect("valid URL");
    assert_eq!(storage_prefix(url.path()), "");
}

#[test]
fn objects_are_stored_below_their_table() {
    let table = TableName::new("logs").expect("table name");
    let id: u128 = 0x018f_0000_0000_7000_8000_0000_0000_0001;
    let name = parquet_file_name(id);
    assert_eq!(name, "018f0000-0000-7000-8000-000000000001.parquet");
    assert_eq!(object_path("data", &table, id), format!("data/logs/{name}"));
    assert_eq!(object_path("", &table, id), format!("/logs/{name}"));
    assert_eq!(
        object_store::path::Path::from(object_path("", &table, id)).to_string(),
        format!("logs/{name}")
    );
}

#[test]
fn sinks_write_one_batch_after_the_other() {
    let mut state: SinkState<&str> = SinkState::new();
    assert!(matches!(state.next_step(), SinkStep::Done));

    state.start_send("first");
    assert!(matches!(state.next_step(), SinkStep::Write("first")));
    state.start_send("second");
    assert!(matches!(state.next_step(), SinkStep::Await));
    assert_eq!(state.write_finished(Ok(())), Ok(()));
    assert_eq!(state.written_file_count(), 1);

    assert!(matches!(state.next_step(), SinkStep::Write("second")));
    let failure = StageError::Write("disk full".to_owned());
    assert_eq!(
        state.write_finished(Err(StageError::Write("disk full".to_owned()))),
        Err(failure)
    );
    assert_eq!(state.written_file_count(), 1);
    assert!(matches!(state.next_step(), SinkStep::Done));
}
