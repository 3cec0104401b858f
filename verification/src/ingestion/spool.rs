//! Admission into the spool: what is reserved, committed and checkpointed, and what each request
//! is answered.

use vstd::prelude::*;

use crate::ingestion::error::{SpoolCorruption, SpoolError, SpoolInvariant};
use crate::ingestion::frame::{reserved_frame_bytes, PreparedFrame, FRAME_OVERHEAD_BYTES};
use crate::ingestion::model::{
    remaining_capacity, AppendBodyLimit, BatchMetadata, DurableAppend, MaximumBatchAdmission,
    SpoolBatchRange, SpoolCapacity, SpoolCheckpoint, SpoolReclamation, SpoolUsage,
};
use crate::ingestion::output_recovery::CheckpointPlan;

verus! {

/// Which of the spool's two files exist.
#[derive(Clone, Copy, Debug, PartialEq, Eq, Structural)]
pub enum SpoolFiles {
    Absent,
    Complete,
    Incomplete,
}

/// Classifies a spool directory by the files that it holds.
pub fn inspect_spool_files(data_exists: bool, checkpoint_exists: bool) -> (r: SpoolFiles)
    ensures
        r == if data_exists && checkpoint_exists {
            SpoolFiles::Complete
        } else if data_exists || checkpoint_exists {
            SpoolFiles::Incomplete
        } else {
            SpoolFiles::Absent
        },
{
    match (data_exists, checkpoint_exists) {
        (false, false) => SpoolFiles::Absent,
        (true, true) => SpoolFiles::Complete,
        (true, false) => SpoolFiles::Incomplete,
        (false, true) => SpoolFiles::Incomplete,
    }
}

/// Whether a spool is to be created before it is recovered. A directory that holds only one of
/// the two files is corrupt.
pub fn must_initialize(files: SpoolFiles) -> (r: Result<bool, SpoolError>)
    ensures
        r == match files {
            SpoolFiles::Absent => Ok::<bool, SpoolError>(true),
            SpoolFiles::Complete => Ok::<bool, SpoolError>(false),
            SpoolFiles::Incomplete => Err::<bool, SpoolError>(
                SpoolError::spec_corrupt(SpoolCorruption::FilesIncomplete),
            ),
        },
{
    match files {
        SpoolFiles::Absent => Ok(true),
        SpoolFiles::Complete => Ok(false),
        SpoolFiles::Incomplete => Err(SpoolError::corrupt(SpoolCorruption::FilesIncomplete)),
    }
}

/// Spool space that is set aside for one append.
#[derive(Debug, PartialEq, Eq)]
pub struct SpoolReservation {
    pub body_limit: AppendBodyLimit,
    pub reserved_bytes: u64,
}

/// The state of a spool that its requests are decided by.
#[derive(Clone, Copy, Debug, PartialEq, Eq, Structural)]
pub struct SpoolAccounting {
    pub capacity: SpoolCapacity,
    pub committed_bytes: u64,
    pub reserved_bytes: u64,
    pub checkpoint: SpoolCheckpoint,
    pub failed: bool,
}

impl SpoolAccounting {
    /// Whether committed and reserved bytes fit the capacity.
    pub open spec fn within_capacity(self) -> bool {
        self.committed_bytes + self.reserved_bytes <= self.capacity.spec_get()
    }

    /// The bytes that are neither committed nor reserved.
    pub open spec fn available(self) -> int {
        remaining_capacity(
            self.capacity.spec_get() as int,
            self.committed_bytes + self.reserved_bytes,
        )
    }

    /// The state after bytes were reserved.
    pub open spec fn reserving(self, bytes: int) -> SpoolAccounting {
        SpoolAccounting { reserved_bytes: (self.reserved_bytes + bytes) as u64, ..self }
    }

    /// The state after reserved bytes were given back.
    pub open spec fn releasing(self, bytes: u64) -> SpoolAccounting {
        if self.reserved_bytes < bytes {
            SpoolAccounting { reserved_bytes: 0, failed: true, ..self }
        } else {
            SpoolAccounting { reserved_bytes: (self.reserved_bytes - bytes) as u64, ..self }
        }
    }

    /// Why reserved bytes cannot be turned into committed ones.
    pub open spec fn commit_fault(self, reserved: u64, committed: u64) -> Option<SpoolInvariant> {
        if committed > reserved || self.reserved_bytes < reserved {
            Some(SpoolInvariant::AppendExceedsReservation)
        } else if self.committed_bytes + committed > u64::MAX {
            Some(SpoolInvariant::CommittedOverflow)
        } else {
            None
        }
    }

    /// The state after reserved bytes were turned into committed ones.
    pub open spec fn committing(self, reserved: u64, committed: u64) -> SpoolAccounting {
        if self.commit_fault(reserved, committed) is Some {
            SpoolAccounting { failed: true, ..self }
        } else {
            SpoolAccounting {
                committed_bytes: (self.committed_bytes + committed) as u64,
                reserved_bytes: (self.reserved_bytes - reserved) as u64,
                ..self
            }
        }
    }

    pub open spec fn failure() -> SpoolError {
        SpoolError::spec_unavailable(SpoolInvariant::Unavailable)
    }

    /// The state of a spool that was just created or recovered.
    pub fn from_recovered(
        capacity: SpoolCapacity,
        committed_bytes: u64,
        checkpoint: SpoolCheckpoint,
    ) -> (r: Self)
        ensures
            r == (SpoolAccounting {
                capacity,
                committed_bytes,
                reserved_bytes: 0,
                checkpoint,
                failed: false,
            }),
    {
        SpoolAccounting { capacity, committed_bytes, reserved_bytes: 0, checkpoint, failed: false }
    }

    /// Refuses every request of a spool that has failed.
    pub fn ensure_writable(&self) -> (r: Result<(), SpoolError>)
        ensures
            r == if self.failed {
                Err::<(), SpoolError>(SpoolAccounting::failure())
            } else {
                Ok::<(), SpoolError>(())
            },
    {
        if self.failed {
            Err(SpoolError::unavailable(SpoolInvariant::Unavailable))
        } else {
            Ok(())
        }
    }

    /// Marks the spool as failed until it is recovered.
    pub fn mark_failed(&mut self)
        ensures
            *final(self) == (SpoolAccounting { failed: true, ..*old(self) }),
    {
        self.failed = true;
    }

    /// Reserves the worst-case space of one batch. Space is never promised twice.
    pub fn reserve(&mut self, body_limit: AppendBodyLimit) -> (r: Result<
        SpoolReservation,
        SpoolError,
    >)
        ensures
            ({
                let required = body_limit.spec_get() + FRAME_OVERHEAD_BYTES;
                if old(self).failed {
                    r == Err::<SpoolReservation, SpoolError>(SpoolAccounting::failure())
                } else if required > u64::MAX {
                    r == Err::<SpoolReservation, SpoolError>(
                        SpoolError::spec_unavailable(SpoolInvariant::ReservationSizeOverflow),
                    )
                } else if old(self).committed_bytes + old(self).reserved_bytes > u64::MAX {
                    r == Err::<SpoolReservation, SpoolError>(
                        SpoolError::spec_unavailable(SpoolInvariant::AccountingOverflow),
                    )
                } else if required > old(self).available() {
                    r == Err::<SpoolReservation, SpoolError>(
                        SpoolError::spec_capacity(required as u64, old(self).available() as u64),
                    )
                } else {
                    &&& r matches Ok(reservation)
                    &&& reservation.body_limit == body_limit
                    &&& reservation.reserved_bytes == required
                    &&& *final(self) == old(self).reserving(required)
                    &&& final(self).within_capacity()
                }
            }),
            r is Err ==> *final(self) == *old(self),
    {
        if self.failed {
            return Err(SpoolError::unavailable(SpoolInvariant::Unavailable));
        }
        let required_bytes: u64 = match reserved_frame_bytes(body_limit) {
            Ok(bytes) => bytes,
            Err(e) => {
                return Err(e);
            },
        };
        let occupied_bytes: u64 = match self.committed_bytes.checked_add(self.reserved_bytes) {
            Some(bytes) => bytes,
            None => {
                return Err(SpoolError::unavailable(SpoolInvariant::AccountingOverflow));
            },
        };
        let available_bytes: u64 = self.capacity.get().saturating_sub(occupied_bytes);
        if required_bytes > available_bytes {
            return Err(SpoolError::capacity(required_bytes, available_bytes));
        }
        self.reserved_bytes = self.reserved_bytes + required_bytes;
        Ok(SpoolReservation { body_limit, reserved_bytes: required_bytes })
    }

    /// The bytes in use.
    pub fn usage(&self) -> (r: Result<SpoolUsage, SpoolError>)
        ensures
            if self.failed {
                r == Err::<SpoolUsage, SpoolError>(SpoolAccounting::failure())
            } else if self.committed_bytes + self.reserved_bytes > u64::MAX {
                r == Err::<SpoolUsage, SpoolError>(
                    SpoolError::spec_unavailable(SpoolInvariant::UsageOverflow),
                )
            } else {
                &&& r matches Ok(usage)
                &&& usage.capacity_bytes == self.capacity.spec_get()
                &&& usage.committed_bytes == self.committed_bytes
                &&& usage.reserved_bytes == self.reserved_bytes
                &&& usage.available_bytes == self.available()
            },
    {
        if self.failed {
            return Err(SpoolError::unavailable(SpoolInvariant::Unavailable));
        }
        SpoolUsage::new(self.capacity.get(), self.committed_bytes, self.reserved_bytes)
    }

    /// Whether a reservation of this size would be granted.
    pub fn maximum_batch_admission(&self, body_limit: AppendBodyLimit) -> (r: Result<
        MaximumBatchAdmission,
        SpoolError,
    >)
        ensures
            ({
                let required = body_limit.spec_get() + FRAME_OVERHEAD_BYTES;
                r == if self.failed {
                    Err::<MaximumBatchAdmission, SpoolError>(SpoolAccounting::failure())
                } else if required > u64::MAX {
                    Err::<MaximumBatchAdmission, SpoolError>(
                        SpoolError::spec_unavailable(SpoolInvariant::ReservationSizeOverflow),
                    )
                } else if self.committed_bytes + self.reserved_bytes > u64::MAX {
                    Err::<MaximumBatchAdmission, SpoolError>(
                        SpoolError::spec_unavailable(SpoolInvariant::AccountingOverflow),
                    )
                } else if required <= self.available() {
                    Ok::<MaximumBatchAdmission, SpoolError>(MaximumBatchAdmission::Available)
                } else {
                    Ok::<MaximumBatchAdmission, SpoolError>(
                        MaximumBatchAdmission::CapacityExhausted,
                    )
                }
            }),
    {
        if self.failed {
            return Err(SpoolError::unavailable(SpoolInvariant::Unavailable));
        }
        let required_bytes: u64 = match reserved_frame_bytes(body_limit) {
            Ok(bytes) => bytes,
            Err(e) => {
                return Err(e);
            },
        };
        let occupied_bytes: u64 = match self.committed_bytes.checked_add(self.reserved_bytes) {
            Some(bytes) => bytes,
            None => {
                return Err(SpoolError::unavailable(SpoolInvariant::AccountingOverflow));
            },
        };
        let available_bytes: u64 = self.capacity.get().saturating_sub(occupied_bytes);
        if required_bytes <= available_bytes {
            Ok(MaximumBatchAdmission::Available)
        } else {
            Ok(MaximumBatchAdmission::CapacityExhausted)
        }
    }

    /// Whether a body may be appended under a reservation.
    pub fn check_append(&self, reservation: &SpoolReservation, body: &[u8]) -> (r: Result<
        (),
        SpoolError,
    >)
        ensures
            r == if body@.len() > reservation.body_limit.spec_get() {
                Err::<(), SpoolError>(
                    SpoolError::spec_batch_limit(
                        body@.len() as u64,
                        reservation.body_limit.spec_get(),
                    ),
                )
            } else if self.failed {
                Err::<(), SpoolError>(SpoolAccounting::failure())
            } else {
                Ok::<(), SpoolError>(())
            },
    {
        let body_bytes: u64 = body.len() as u64;
        if body_bytes > reservation.body_limit.get() {
            return Err(SpoolError::batch_limit(body_bytes, reservation.body_limit.get()));
        }
        self.ensure_writable()
    }

    /// Turns a reservation into committed bytes once its frame has been synchronized.
    pub fn commit_reservation(&mut self, reserved_bytes: u64, committed_bytes: u64) -> (r: Result<
        (),
        SpoolError,
    >)
        ensures
            *final(self) == old(self).committing(reserved_bytes, committed_bytes),
            r == match old(self).commit_fault(reserved_bytes, committed_bytes) {
                Some(fault) => Err::<(), SpoolError>(SpoolError::spec_unavailable(fault)),
                None => Ok::<(), SpoolError>(()),
            },
            old(self).within_capacity() ==> final(self).within_capacity(),
    {
        if committed_bytes > reserved_bytes || self.reserved_bytes < reserved_bytes {
            self.failed = true;
            return Err(SpoolError::unavailable(SpoolInvariant::AppendExceedsReservation));
        }
        match self.committed_bytes.checked_add(committed_bytes) {
            Some(new_committed) => {
                self.committed_bytes = new_committed;
                self.reserved_bytes = self.reserved_bytes - reserved_bytes;
                Ok(())
            },
            None => {
                self.failed = true;
                Err(SpoolError::unavailable(SpoolInvariant::CommittedOverflow))
            },
        }
    }

    /// Gives a reservation back.
    pub fn release_reservation(&mut self, reserved_bytes: u64)
        ensures
            *final(self) == old(self).releasing(reserved_bytes),
            old(self).within_capacity() ==> final(self).within_capacity(),
    {
        if self.reserved_bytes < reserved_bytes {
            self.failed = true;
            self.reserved_bytes = 0;
            return ;
        }
        self.reserved_bytes = self.reserved_bytes - reserved_bytes;
    }

    /// The checkpoint that is durably stored.
    pub fn checkpoint(&self) -> (r: Result<SpoolCheckpoint, SpoolError>)
        ensures
            r == if self.failed {
                Err::<SpoolCheckpoint, SpoolError>(SpoolAccounting::failure())
            } else {
                Ok::<SpoolCheckpoint, SpoolError>(self.checkpoint)
            },
    {
        if self.failed {
            return Err(SpoolError::unavailable(SpoolInvariant::Unavailable));
        }
        Ok(self.checkpoint)
    }

    /// Whether a plan may be carried out, and which checkpoint is then to be stored.
    pub fn check_checkpoint_plan(&self, plan: CheckpointPlan) -> (r: Result<
        SpoolCheckpoint,
        SpoolError,
    >)
        ensures
            r == if self.failed {
                Err::<SpoolCheckpoint, SpoolError>(SpoolAccounting::failure())
            } else if plan.current != self.checkpoint {
                Err::<SpoolCheckpoint, SpoolError>(
                    SpoolError::spec_unavailable(SpoolInvariant::CheckpointPlanStale),
                )
            } else if plan.target.position > self.committed_bytes {
                Err::<SpoolCheckpoint, SpoolError>(
                    SpoolError::spec_unavailable(SpoolInvariant::CheckpointPlanExceedsData),
                )
            } else {
                Ok::<SpoolCheckpoint, SpoolError>(plan.target)
            },
    {
        if self.failed {
            return Err(SpoolError::unavailable(SpoolInvariant::Unavailable));
        }
        if plan.current != self.checkpoint {
            return Err(SpoolError::unavailable(SpoolInvariant::CheckpointPlanStale));
        }
        if plan.target.position() > self.committed_bytes {
            return Err(SpoolError::unavailable(SpoolInvariant::CheckpointPlanExceedsData));
        }
        Ok(plan.target)
    }

    /// Installs a checkpoint that has been stored.
    pub fn install_checkpoint(&mut self, checkpoint: SpoolCheckpoint)
        ensures
            *final(self) == (SpoolAccounting { checkpoint, ..*old(self) }),
    {
        self.checkpoint = checkpoint;
    }

    /// Whether every committed frame is checkpointed and nothing is reserved, so that the whole
    /// data file may be reclaimed.
    pub open spec fn reclaimable(self) -> bool {
        &&& self.reserved_bytes == 0
        &&& self.checkpoint.position != 0
        &&& self.checkpoint.position == self.committed_bytes
    }

    /// What a request to reclaim is answered. The caller resets the stored checkpoint before it
    /// truncates the data, so that the checkpoint never points beyond the data.
    pub fn reclaim_checkpointed(&self) -> (r: Result<SpoolReclamation, SpoolError>)
        ensures
            r == if self.failed {
                Err::<SpoolReclamation, SpoolError>(SpoolAccounting::failure())
            } else if self.reclaimable() {
                Ok::<SpoolReclamation, SpoolError>(
                    SpoolReclamation::Reclaimed { bytes: self.committed_bytes },
                )
            } else {
                Ok::<SpoolReclamation, SpoolError>(SpoolReclamation::Deferred)
            },
    {
        if self.failed {
            return Err(SpoolError::unavailable(SpoolInvariant::Unavailable));
        }
        if self.reserved_bytes != 0 || self.checkpoint.position() == 0
            || self.checkpoint.position() != self.committed_bytes {
            return Ok(SpoolReclamation::Deferred);
        }
        Ok(SpoolReclamation::Reclaimed { bytes: self.committed_bytes })
    }

    /// Records that the data file was truncated.
    pub fn data_truncated(&mut self)
        requires
            old(self).checkpoint.position == 0,
        ensures
            *final(self) == (SpoolAccounting { committed_bytes: 0, ..*old(self) }),
            old(self).within_capacity() ==> final(self).within_capacity(),
    {
        self.committed_bytes = 0;
    }
}

/// The range that a frame occupies when it is written at `start`.
pub fn append_range(start: u64, stored_bytes: u64) -> (r: Result<SpoolBatchRange, SpoolError>)
    ensures
        if start + stored_bytes > u64::MAX {
            r == Err::<SpoolBatchRange, SpoolError>(
                SpoolError::spec_unavailable(SpoolInvariant::AppendPositionOverflow),
            )
        } else if stored_bytes == 0 {
            r == Err::<SpoolBatchRange, SpoolError>(
                SpoolError::spec_unavailable(SpoolInvariant::RangeInvalid),
            )
        } else {
            &&& r matches Ok(range)
            &&& range.spec_start().position == start
            &&& range.spec_end().position == start + stored_bytes
        },
{
    match start.checked_add(stored_bytes) {
        Some(end) => SpoolBatchRange::new(start, end),
        None => Err(SpoolError::unavailable(SpoolInvariant::AppendPositionOverflow)),
    }
}

/// What an append is answered once its frame has been synchronized.
pub fn durable_append(
    metadata: BatchMetadata,
    prepared: &PreparedFrame,
    range: SpoolBatchRange,
) -> (r: DurableAppend)
    ensures
        r == (DurableAppend {
            metadata,
            body_bytes: prepared.body_bytes,
            body_digest: prepared.body_digest,
            range,
        }),
{
    DurableAppend::new(metadata, prepared.body_bytes(), prepared.body_digest(), range)
}

/// Giving a reservation back leaves the spool as it was before the reservation.
pub proof fn releasing_undoes_reserving(state: SpoolAccounting, bytes: u64)
    requires
        state.reserved_bytes + bytes <= u64::MAX,
    ensures
        state.reserving(bytes as int).releasing(bytes) == state,
{
}

/// A body within the limit for which space was reserved can be committed: its frame fits the
/// reservation, and what is left of the reservation is given back.
pub proof fn reserved_appends_can_be_committed(
    state: SpoolAccounting,
    body_limit: u64,
    body_bytes: u64,
)
    requires
        state.within_capacity(),
        body_bytes <= body_limit,
        body_limit + FRAME_OVERHEAD_BYTES <= state.available(),
    ensures
        ({
            let reserved = (body_limit + FRAME_OVERHEAD_BYTES) as u64;
            let stored = (body_bytes + FRAME_OVERHEAD_BYTES) as u64;
            let held = state.reserving(reserved as int);
            &&& held.within_capacity()
            &&& held.commit_fault(reserved, stored) is None
            &&& held.committing(reserved, stored) == (SpoolAccounting {
                committed_bytes: (state.committed_bytes + stored) as u64,
                ..state
            })
            &&& held.committing(reserved, stored).within_capacity()
        }),
{
}

/// No byte of the capacity is promised twice: what is committed, what is reserved and what is
/// available make up the capacity, a reservation takes its bytes from what is available, and giving
/// it back or committing less than it holds returns the rest there. The capacity and the checkpoint
/// stay as they are.
pub proof fn every_byte_of_the_capacity_is_accounted_for(
    state: SpoolAccounting,
    reserved: u64,
    committed: u64,
)
    requires
        state.committed_bytes + state.reserved_bytes <= state.capacity.spec_get(),
    ensures
        state.available() + state.committed_bytes + state.reserved_bytes
            == state.capacity.spec_get(),
        reserved <= state.available() ==> {
            let held = state.reserving(reserved as int);
            &&& held.available() == state.available() - reserved
            &&& held.reserved_bytes == state.reserved_bytes + reserved
            &&& held.committed_bytes == state.committed_bytes
            &&& held.capacity == state.capacity && held.checkpoint == state.checkpoint
            &&& held.failed == state.failed
        },
        reserved <= state.reserved_bytes ==> {
            let freed = state.releasing(reserved);
            &&& freed.available() == state.available() + reserved
            &&& freed.committed_bytes == state.committed_bytes
            &&& freed.capacity == state.capacity && freed.checkpoint == state.checkpoint
            &&& freed.failed == state.failed
        },
        reserved > state.reserved_bytes ==> state.releasing(reserved).failed,
        committed <= reserved <= state.reserved_bytes ==> {
            let stored = state.committing(reserved, committed);
            &&& stored.available() == state.available() + (reserved - committed)
            &&& stored.committed_bytes == state.committed_bytes + committed
            &&& stored.capacity == state.capacity && stored.checkpoint == state.checkpoint
            &&& stored.failed == state.failed
        },
        committed > reserved || reserved > state.reserved_bytes ==> {
            let stored = state.committing(reserved, committed);
            &&& stored.failed
            &&& stored.available() == state.available()
            &&& stored.committed_bytes == state.committed_bytes
        },
{
}

/// The data are given up only where nothing is reserved and no committed byte lies at or behind the
/// checkpoint, and then unless there are none.
pub proof fn only_checkpointed_data_are_reclaimed(state: SpoolAccounting)
    requires
        state.checkpoint.position <= state.committed_bytes,
    ensures
        state.reclaimable() <==> {
            &&& state.committed_bytes > 0
            &&& state.reserved_bytes == 0
            &&& forall|byte: int|
                0 <= byte < state.committed_bytes ==> #[trigger] below(byte, state.checkpoint)
        },
{
    if state.committed_bytes > 0 && (forall|byte: int|
        0 <= byte < state.committed_bytes ==> #[trigger] below(byte, state.checkpoint)) {
        assert(below(state.committed_bytes - 1, state.checkpoint));
    }
}

/// Whether a byte of the data lies before a checkpoint.
pub open spec fn below(byte: int, checkpoint: SpoolCheckpoint) -> bool {
    byte < checkpoint.position
}

} // verus!
