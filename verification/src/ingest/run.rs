//! One run of ingestion: which step follows which, and what is counted.

use vstd::prelude::*;

use crate::ingest::batcher::{event_rows, same_batch, Batcher, ColumnBatch};
use crate::ingest::event::{value_views, Event, EventContext, EventRow, EventValue, RawEvent};
use crate::ingest::normalizer::{
    json_document, normalizer_of, refusals_are_complete, Normalizer, NormalizerView,
};
use crate::ingest::schema::TableSchema;
use crate::ingest::stage_error::{StageError, StageErrorView};
use crate::ingest::wal::Offset;

verus! {

/// What a run did.
#[derive(Debug, Clone, Copy, PartialEq, Eq, Structural)]
pub struct IngestSummary {
    pub read_line_count: u64,
    pub ingested_row_count: u64,
    pub dead_letter_count: u64,
    pub written_file_count: u64,
}

/// The step that a run waits for.
#[derive(Debug)]
pub enum IngestPhase<C: EventContext> {
    /// The next line of the source, or its end.
    Reading,
    /// The line to be in the log.
    Appending(RawEvent<C>),
    /// A batch to be at the sink. If `ending`, the source has ended.
    Sending { row_count: u64, ending: bool },
    /// The log to be checkpointed.
    Checkpointing { ending: bool },
    /// A rejected line to be in the dead-letter output.
    Rejecting,
    /// The sink to be closed.
    Closing,
    /// Nothing: the run is over.
    Finished,
    /// Nothing: the run failed.
    Failed,
}

/// What a run asks for.
#[derive(Debug)]
pub enum IngestAction<C: EventContext> {
    /// Read the next line.
    Read,
    /// Append a line to the log.
    Append(String),
    /// Send a batch to the sink.
    Send(ColumnBatch),
    /// Checkpoint the log up to an offset.
    Checkpoint(Offset),
    /// Write a rejected line to the dead-letter output.
    Reject { raw: String, error: StageError, context: C },
    /// Close the sink.
    Close,
}

/// A run.
#[derive(Debug)]
pub struct Ingest<C: EventContext> {
    pub normalizer: Normalizer,
    pub batcher: Batcher<C>,
    pub read_line_count: u64,
    pub ingested_row_count: u64,
    pub dead_letter_count: u64,
    /// How many of the lines read were too long.
    pub oversized_line_count: u64,
    pub last_offset: Offset,
    pub phase: IngestPhase<C>,
}

impl<C: EventContext> Ingest<C> {
    /// How many lines or rows are between two steps.
    pub open spec fn in_flight(self) -> int {
        match self.phase {
            IngestPhase::Appending(_) => 1,
            IngestPhase::Sending { row_count, .. } => row_count as int,
            IngestPhase::Rejecting => 1,
            _ => 0,
        }
    }

    /// Unless the run failed, each line that was read was too long, is at the sink, is in the
    /// dead-letter output, waits for a batch, or is between two steps.
    pub open spec fn well_formed(self) -> bool {
        &&& self.batcher.schema.fields@ == self.normalizer@.fields
        &&& self.phase !is Failed ==> self.read_line_count == self.oversized_line_count
            + self.ingested_row_count + self.dead_letter_count + self.batcher.buffer@.len()
            + self.in_flight()
        &&& match self.phase {
            IngestPhase::Sending { ending, .. } => ending ==> self.batcher.buffer@.len() == 0,
            IngestPhase::Checkpointing { ending } => ending ==> self.batcher.buffer@.len() == 0,
            IngestPhase::Closing | IngestPhase::Finished => self.batcher.buffer@.len() == 0,
            _ => true,
        }
    }

    /// What a run goes by, which no step changes.
    pub open spec fn same_rules(self, other: Self) -> bool {
        &&& self.normalizer == other.normalizer
        &&& self.batcher.schema == other.batcher.schema
        &&& self.batcher.capacity == other.batcher.capacity
    }

    /// Whether nothing but the phase differs.
    pub open spec fn same_but_phase(self, other: Self) -> bool {
        &&& self.same_rules(other)
        &&& self.batcher.buffer@ == other.batcher.buffer@
        &&& self.read_line_count == other.read_line_count
        &&& self.ingested_row_count == other.ingested_row_count
        &&& self.dead_letter_count == other.dead_letter_count
        &&& self.oversized_line_count == other.oversized_line_count
        &&& self.last_offset == other.last_offset
    }

    /// Begins a run.
    pub fn new(schema: TableSchema, batch_size: usize) -> (r: Result<Self, StageError>)
        ensures
            match r {
                Ok(run) => {
                    &&& normalizer_of(schema) == Ok::<NormalizerView, StageErrorView>(
                        run.normalizer@,
                    )
                    &&& run.well_formed()
                    &&& run.batcher.capacity == batch_size
                    &&& run.batcher.buffer@.len() == 0
                    &&& run.phase is Reading
                    &&& run.read_line_count == 0
                    &&& run.ingested_row_count == 0
                    &&& run.dead_letter_count == 0
                    &&& run.oversized_line_count == 0
                    &&& run.last_offset == Offset(0)
                },
                Err(e) => normalizer_of(schema) == Err::<NormalizerView, StageErrorView>(e@),
            },
    {
        let batch_schema: TableSchema = schema.clone();
        match Normalizer::new(schema) {
            Ok(normalizer) => Ok(
                Ingest {
                    normalizer,
                    batcher: Batcher::new(batch_schema, batch_size),
                    read_line_count: 0,
                    ingested_row_count: 0,
                    dead_letter_count: 0,
                    oversized_line_count: 0,
                    last_offset: Offset(0),
                    phase: IngestPhase::Reading,
                },
            ),
            Err(e) => Err(e),
        }
    }

    /// The source gave a line or an error. A line that is too long is counted and passed over;
    /// any other error ends the run.
    pub fn source_item(&mut self, item: Result<RawEvent<C>, StageError>) -> (r: Result<
        IngestAction<C>,
        StageError,
    >)
        requires
            old(self).well_formed(),
            old(self).phase is Reading,
            old(self).read_line_count < u64::MAX,
        ensures
            final(self).well_formed(),
            final(self).same_rules(*old(self)),
            final(self).batcher.buffer@ == old(self).batcher.buffer@,
            final(self).ingested_row_count == old(self).ingested_row_count,
            final(self).dead_letter_count == old(self).dead_letter_count,
            final(self).last_offset == old(self).last_offset,
            match item {
                Ok(event) => {
                    &&& final(self).read_line_count == old(self).read_line_count + 1
                    &&& final(self).oversized_line_count == old(self).oversized_line_count
                    &&& final(self).phase == IngestPhase::Appending(event)
                    &&& r == Ok::<IngestAction<C>, StageError>(IngestAction::Append(event.raw))
                },
                Err(StageError::LineTooLarge { .. }) => {
                    &&& final(self).read_line_count == old(self).read_line_count + 1
                    &&& final(self).oversized_line_count == old(self).oversized_line_count + 1
                    &&& final(self).phase is Reading
                    &&& r == Ok::<IngestAction<C>, StageError>(IngestAction::Read)
                },
                Err(e) => {
                    &&& final(self).read_line_count == old(self).read_line_count
                    &&& final(self).oversized_line_count == old(self).oversized_line_count
                    &&& final(self).phase is Failed
                    &&& r == Err::<IngestAction<C>, StageError>(e)
                },
            },
    {
        match item {
            Ok(event) => {
                let raw: String = event.raw.clone();
                self.read_line_count = self.read_line_count + 1;
                self.phase = IngestPhase::Appending(event);
                Ok(IngestAction::Append(raw))
            },
            Err(StageError::LineTooLarge { .. }) => {
                self.read_line_count = self.read_line_count + 1;
                self.oversized_line_count = self.oversized_line_count + 1;
                Ok(IngestAction::Read)
            },
            Err(e) => {
                self.phase = IngestPhase::Failed;
                Err(e)
            },
        }
    }

    /// The log has the line, and this is the row that it becomes, or why it becomes none.
    pub fn accept_row(&mut self, offset: Offset, row: Result<Vec<EventValue>, StageError>) -> (r:
        Result<IngestAction<C>, StageError>)
        requires
            old(self).well_formed(),
            old(self).phase is Appending,
        ensures
            final(self).well_formed(),
            final(self).same_rules(*old(self)),
            final(self).read_line_count == old(self).read_line_count,
            final(self).ingested_row_count == old(self).ingested_row_count,
            final(self).dead_letter_count == old(self).dead_letter_count,
            final(self).oversized_line_count == old(self).oversized_line_count,
            final(self).last_offset == offset,
            match row {
                Err(e) => {
                    let event = old(self).phase->Appending_0;
                    &&& final(self).batcher.buffer@ == old(self).batcher.buffer@
                    &&& final(self).phase is Rejecting
                    &&& r == Ok::<IngestAction<C>, StageError>(
                        IngestAction::Reject { raw: event.raw, error: e, context: event.context },
                    )
                },
                Ok(values) => {
                    let context = old(self).phase->Appending_0.context;
                    let gathered = old(self).batcher.buffer@.push(
                        (Event { row: EventRow { values }, context }),
                    );
                    if gathered.len() < old(self).batcher.capacity {
                        &&& final(self).batcher.buffer@ == gathered
                        &&& final(self).phase is Reading
                        &&& r == Ok::<IngestAction<C>, StageError>(IngestAction::Read)
                    } else {
                        &&& final(self).batcher.buffer@.len() == 0
                        &&& match r {
                            Ok(IngestAction::Send(batch)) => {
                                &&& final(self).phase == IngestPhase::<C>::Sending {
                                    row_count: batch.row_count as u64,
                                    ending: false,
                                }
                                &&& same_batch(
                                    Ok(batch),
                                    event_rows(gathered),
                                    old(self).batcher.schema.fields@,
                                )
                            },
                            Ok(_) => false,
                            Err(e) => {
                                &&& final(self).phase is Failed
                                &&& same_batch(
                                    Err(e),
                                    event_rows(gathered),
                                    old(self).batcher.schema.fields@,
                                )
                            },
                        }
                    }
                },
            },
    {
        let mut phase: IngestPhase<C> = IngestPhase::Failed;
        std::mem::swap(&mut phase, &mut self.phase);
        self.last_offset = offset;
        let (raw, context): (String, C) = match phase {
            IngestPhase::Appending(event) => (event.raw, event.context),
            _ => vstd::pervasive::unreached(),
        };
        match row {
            Ok(values) => match self.batcher.push(Event { row: EventRow { values }, context }) {
                Ok(Some(batch)) => {
                    self.phase =
                    IngestPhase::Sending { row_count: batch.row_count as u64, ending: false };
                    Ok(IngestAction::Send(batch))
                },
                Ok(None) => {
                    self.phase = IngestPhase::Reading;
                    Ok(IngestAction::Read)
                },
                Err(e) => Err(e),
            },
            Err(error) => {
                self.phase = IngestPhase::Rejecting;
                Ok(IngestAction::Reject { raw, error, context })
            },
        }
    }

    /// The log has the line, at this offset. The line is normalized, and joins the rows that
    /// were gathered or is rejected.
    pub fn wal_appended(&mut self, offset: Offset) -> (r: Result<IngestAction<C>, StageError>)
        requires
            old(self).well_formed(),
            old(self).phase is Appending,
        ensures
            final(self).well_formed(),
            final(self).same_rules(*old(self)),
            final(self).read_line_count == old(self).read_line_count,
            final(self).ingested_row_count == old(self).ingested_row_count,
            final(self).dead_letter_count == old(self).dead_letter_count,
            final(self).oversized_line_count == old(self).oversized_line_count,
            final(self).last_offset == offset,
            ({
                let event = old(self).phase->Appending_0;
                let made = old(self).normalizer@.row_of_document(json_document(event.raw@));
                match made {
                    Err(error) => {
                        &&& final(self).batcher.buffer@ == old(self).batcher.buffer@
                        &&& final(self).phase is Rejecting
                        &&& r matches Ok(IngestAction::Reject { raw, error: e, context })
                            && raw == event.raw && e@ == error && context == event.context
                            && e@.complete()
                    },
                    Ok(values) => {
                        let rows = event_rows(old(self).batcher.buffer@).push(values);
                        if rows.len() < old(self).batcher.capacity {
                            &&& event_rows(final(self).batcher.buffer@) == rows
                            &&& final(self).batcher.buffer@.drop_last() == old(
                                self,
                            ).batcher.buffer@
                            &&& final(self).batcher.buffer@.last().context == event.context
                            &&& final(self).phase is Reading
                            &&& r == Ok::<IngestAction<C>, StageError>(IngestAction::Read)
                        } else {
                            &&& final(self).batcher.buffer@.len() == 0
                            &&& match r {
                                Ok(IngestAction::Send(batch)) => {
                                    &&& final(self).phase == IngestPhase::<C>::Sending {
                                        row_count: batch.row_count as u64,
                                        ending: false,
                                    }
                                    &&& same_batch(
                                        Ok(batch),
                                        rows,
                                        old(self).batcher.schema.fields@,
                                    )
                                },
                                Ok(_) => false,
                                Err(e) => {
                                    &&& final(self).phase is Failed
                                    &&& same_batch(
                                        Err(e),
                                        rows,
                                        old(self).batcher.schema.fields@,
                                    )
                                },
                            }
                        }
                    },
                }
            }),
    {
        let ghost buffered = self.batcher.buffer@;
        let row: Result<Vec<EventValue>, StageError> = match &self.phase {
            IngestPhase::Appending(event) => self.normalizer.row_of_line(event.raw.as_str()),
            _ => vstd::pervasive::unreached(),
        };
        proof {
            refusals_are_complete(
                self.normalizer@,
                json_document(self.phase->Appending_0.raw@),
            );
            if row is Ok {
                let values = row->Ok_0;
                let context = self.phase->Appending_0.context;
                let made = Event { row: EventRow { values }, context };
                assert(event_rows(buffered.push(made)) =~= event_rows(buffered).push(
                    value_views(values@),
                ));
            }
        }
        self.accept_row(offset, row)
    }

    /// The sink has the batch. Its rows are counted, and the log can be checkpointed up to the
    /// last line that was appended.
    pub fn batch_sent(&mut self) -> (r: IngestAction<C>)
        requires
            old(self).well_formed(),
            old(self).phase is Sending,
        ensures
            final(self).well_formed(),
            final(self).same_rules(*old(self)),
            final(self).batcher.buffer@ == old(self).batcher.buffer@,
            final(self).read_line_count == old(self).read_line_count,
            final(self).dead_letter_count == old(self).dead_letter_count,
            final(self).oversized_line_count == old(self).oversized_line_count,
            final(self).last_offset == old(self).last_offset,
            final(self).ingested_row_count == old(self).ingested_row_count
                + old(self).phase->row_count,
            final(self).phase == (IngestPhase::<C>::Checkpointing {
                ending: old(self).phase->Sending_ending,
            }),
            r == IngestAction::<C>::Checkpoint(old(self).last_offset),
    {
        match &self.phase {
            IngestPhase::Sending { row_count, ending } => {
                let ending: bool = *ending;
                self.ingested_row_count = self.ingested_row_count + *row_count;
                self.phase = IngestPhase::Checkpointing { ending };
            },
            _ => {},
        }
        IngestAction::Checkpoint(self.last_offset)
    }

    /// The log is checkpointed. If the source has ended, the sink is to be closed.
    pub fn checkpointed(&mut self) -> (r: IngestAction<C>)
        requires
            old(self).well_formed(),
            old(self).phase is Checkpointing,
        ensures
            final(self).well_formed(),
            final(self).same_but_phase(*old(self)),
            if old(self).phase->Checkpointing_ending {
                final(self).phase is Closing && r is Close
            } else {
                final(self).phase is Reading && r is Read
            },
    {
        let ending: bool = match &self.phase {
            IngestPhase::Checkpointing { ending } => *ending,
            _ => false,
        };
        if ending {
            self.phase = IngestPhase::Closing;
            IngestAction::Close
        } else {
            self.phase = IngestPhase::Reading;
            IngestAction::Read
        }
    }

    /// The dead-letter output has the rejected line.
    pub fn dead_letter_written(&mut self) -> (r: IngestAction<C>)
        requires
            old(self).well_formed(),
            old(self).phase is Rejecting,
        ensures
            final(self).well_formed(),
            final(self).same_rules(*old(self)),
            final(self).batcher.buffer@ == old(self).batcher.buffer@,
            final(self).read_line_count == old(self).read_line_count,
            final(self).ingested_row_count == old(self).ingested_row_count,
            final(self).oversized_line_count == old(self).oversized_line_count,
            final(self).last_offset == old(self).last_offset,
            final(self).dead_letter_count == old(self).dead_letter_count + 1,
            final(self).phase is Reading,
            r is Read,
    {
        self.dead_letter_count = self.dead_letter_count + 1;
        self.phase = IngestPhase::Reading;
        IngestAction::Read
    }

    /// The source has ended. What was gathered becomes the last batch; if there is nothing, the
    /// sink is to be closed.
    pub fn source_ended(&mut self) -> (r: Result<IngestAction<C>, StageError>)
        requires
            old(self).well_formed(),
            old(self).phase is Reading,
        ensures
            final(self).well_formed(),
            final(self).same_rules(*old(self)),
            final(self).batcher.buffer@.len() == 0,
            final(self).read_line_count == old(self).read_line_count,
            final(self).ingested_row_count == old(self).ingested_row_count,
            final(self).dead_letter_count == old(self).dead_letter_count,
            final(self).oversized_line_count == old(self).oversized_line_count,
            final(self).last_offset == old(self).last_offset,
            if old(self).batcher.buffer@.len() == 0 {
                final(self).phase is Closing && r == Ok::<IngestAction<C>, StageError>(
                    IngestAction::Close,
                )
            } else {
                match r {
                    Ok(IngestAction::Send(batch)) => {
                        &&& final(self).phase == IngestPhase::<C>::Sending {
                            row_count: batch.row_count as u64,
                            ending: true,
                        }
                        &&& same_batch(
                            Ok(batch),
                            event_rows(old(self).batcher.buffer@),
                            old(self).batcher.schema.fields@,
                        )
                    },
                    Ok(_) => false,
                    Err(e) => {
                        &&& final(self).phase is Failed
                        &&& same_batch(
                            Err(e),
                            event_rows(old(self).batcher.buffer@),
                            old(self).batcher.schema.fields@,
                        )
                    },
                }
            },
    {
        match self.batcher.flush() {
            Ok(None) => {
                self.phase = IngestPhase::Closing;
                Ok(IngestAction::Close)
            },
            Ok(Some(batch)) => {
                self.phase =
                IngestPhase::Sending { row_count: batch.row_count as u64, ending: true };
                Ok(IngestAction::Send(batch))
            },
            Err(e) => {
                self.phase = IngestPhase::Failed;
                Err(e)
            },
        }
    }

    /// The sink is closed, and the run is over. Each line that was read is accounted for.
    pub fn sink_closed(&mut self) -> (r: IngestSummary)
        requires
            old(self).well_formed(),
            old(self).phase is Closing,
        ensures
            final(self).well_formed(),
            final(self).same_but_phase(*old(self)),
            final(self).phase is Finished,
            r == (IngestSummary {
                read_line_count: old(self).read_line_count,
                ingested_row_count: old(self).ingested_row_count,
                dead_letter_count: old(self).dead_letter_count,
                written_file_count: 0,
            }),
            r.read_line_count == r.ingested_row_count + r.dead_letter_count
                + old(self).oversized_line_count,
    {
        self.phase = IngestPhase::Finished;
        IngestSummary {
            read_line_count: self.read_line_count,
            ingested_row_count: self.ingested_row_count,
            dead_letter_count: self.dead_letter_count,
            written_file_count: 0,
        }
    }
}

} // verus!
