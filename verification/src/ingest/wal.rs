//! Offsets of a write-ahead log.

use vstd::prelude::*;

verus! {

/// The place of an event in the log.
#[derive(Clone, Copy, Debug, PartialEq, Eq, PartialOrd, Ord, Hash, Structural)]
pub struct Offset(pub u64);

/// A log that counts its events and keeps none.
#[derive(Debug)]
pub struct NoopWal {
    pub(crate) next_offset: u64,
    pub(crate) checkpointed: u64,
}

impl NoopWal {
    pub open(crate) spec fn spec_next(self) -> u64 {
        self.next_offset
    }

    pub open(crate) spec fn spec_checkpointed(self) -> u64 {
        self.checkpointed
    }

    pub fn new() -> (r: Self)
        ensures
            r.spec_next() == 0,
            r.spec_checkpointed() == 0,
    {
        NoopWal { next_offset: 0, checkpointed: 0 }
    }

    /// The greatest offset that was checkpointed.
    pub fn checkpointed(&self) -> (r: Offset)
        ensures
            r.0 == self.spec_checkpointed(),
    {
        Offset(self.checkpointed)
    }

    /// Counts an event. Each has a greater offset than the one before it.
    pub fn append(&mut self, _raw: &str) -> (r: Offset)
        requires
            old(self).spec_next() < u64::MAX,
        ensures
            r.0 == old(self).spec_next(),
            final(self).spec_next() == old(self).spec_next() + 1,
            final(self).spec_checkpointed() == old(self).spec_checkpointed(),
    {
        let offset: Offset = Offset(self.next_offset);
        self.next_offset = self.next_offset + 1;
        offset
    }

    /// Marks the events up to an offset as committed. The mark never goes down.
    pub fn checkpoint(&mut self, offset: Offset)
        ensures
            final(self).spec_next() == old(self).spec_next(),
            final(self).spec_checkpointed() == if offset.0 > old(self).spec_checkpointed() {
                offset.0
            } else {
                old(self).spec_checkpointed()
            },
    {
        if offset.0 > self.checkpointed {
            self.checkpointed = offset.0;
        }
    }
}

impl Default for NoopWal {
    fn default() -> (r: Self)
        ensures
            r.spec_next() == 0,
            r.spec_checkpointed() == 0,
    {
        Self::new()
    }
}

} // verus!
