//! A sink that writes one batch at a time.

use vstd::prelude::*;

use crate::ingest::stage_error::StageError;

verus! {

/// What a sink has to do.
#[derive(Debug)]
pub enum SinkStep<B> {
    /// Wait for the write that is under way.
    Await,
    /// Begin to write a batch.
    Write(B),
    /// Nothing: everything that was sent is written.
    Done,
}

/// What a sink holds: a batch that was sent, whether a write is under way, and how many files are
/// written.
#[derive(Debug)]
pub struct SinkState<B> {
    pub pending: Option<B>,
    pub writing: bool,
    pub written_file_count: u64,
}

impl<B> SinkState<B> {
    pub fn new() -> (r: Self)
        ensures
            r.pending is None,
            !r.writing,
            r.written_file_count == 0,
    {
        SinkState { pending: None, writing: false, written_file_count: 0 }
    }

    /// How many files are written.
    pub fn written_file_count(&self) -> (r: u64)
        ensures
            r == self.written_file_count,
    {
        self.written_file_count
    }

    /// Takes a batch. It takes the place of one that was not flushed.
    pub fn start_send(&mut self, item: B)
        ensures
            final(self).pending == Some(item),
            final(self).writing == old(self).writing,
            final(self).written_file_count == old(self).written_file_count,
    {
        self.pending = Some(item);
    }

    /// The next step of a flush. A write that is under way comes before the next one.
    pub fn next_step(&mut self) -> (r: SinkStep<B>)
        ensures
            final(self).written_file_count == old(self).written_file_count,
            if old(self).writing {
                r is Await && final(self).writing && final(self).pending == old(self).pending
            } else {
                match old(self).pending {
                    Some(batch) => r == SinkStep::Write(batch) && final(self).writing
                        && final(self).pending is None,
                    None => r is Done && !final(self).writing && final(self).pending is None,
                }
            },
    {
        if self.writing {
            return SinkStep::Await;
        }
        match self.pending.take() {
            Some(batch) => {
                self.writing = true;
                SinkStep::Write(batch)
            },
            None => SinkStep::Done,
        }
    }

    /// The write that was under way came to an end. One that failed counts for no file.
    pub fn write_finished(&mut self, outcome: Result<(), StageError>) -> (r: Result<
        (),
        StageError,
    >)
        requires
            old(self).writing,
            old(self).written_file_count < u64::MAX,
        ensures
            r == outcome,
            !final(self).writing,
            final(self).pending == old(self).pending,
            final(self).written_file_count == old(self).written_file_count + if outcome is Ok {
                1int
            } else {
                0
            },
    {
        self.writing = false;
        match outcome {
            Ok(done) => {
                self.written_file_count = self.written_file_count + 1;
                Ok(done)
            },
            Err(e) => Err(e),
        }
    }
}

} // verus!
