//! The builders that gather the rows of batches into segments.

use std::collections::VecDeque;

use vstd::multiset::Multiset;
use vstd::prelude::*;

use crate::calendar::utc_day;
use crate::ingestion::estimate::{
    capacities_of, estimate_row, measure_row, measured_parts, resident_row_bytes, row_bytes,
    row_memory,
};
use crate::ingestion::model::BatchMetadata;
use crate::ingestion::record::{AcceptedRow, DeadLetterEntry, NormalizedBatch, NormalizedRecord};
use crate::ingestion::segment::{
    ordering_keeps_rows, row_time, rows_resident, rows_uncompressed, EventDay, OpenSegment,
    OpenView, SealedSegment, SealedView, SealingReason, SegmentBuildError, SegmentBuildLimits,
    SegmentBuildOutcome, SegmentBuildSummary, SegmentBuilderUsage, SegmentCapacity, SegmentKey,
    SegmentRow, SegmentStagingCapacity,
};

verus! {

/// The builders of segments. Open segments are kept in the order of their keys, sealed ones in the
/// order in which they were sealed. Instants are nanoseconds on a clock that does not run backwards.
#[derive(Debug)]
pub struct SegmentBuilders {
    pub(crate) limits: SegmentBuildLimits,
    pub(crate) open: Vec<OpenSegment>,
    pub(crate) sealed: VecDeque<SealedSegment>,
    pub(crate) estimated_resident_bytes: u64,
    pub(crate) estimated_staging_bytes: u64,
    pub(crate) access_sequence: u64,
    pub(crate) last_observed_at: Option<u128>,
}

/// What the builders hold.
#[verifier::ext_equal]
pub struct BuildersView {
    pub open: Seq<OpenView>,
    pub sealed: Seq<SealedView>,
    pub access_sequence: u64,
    pub last_observed_at: Option<u128>,
}

pub open(crate) spec fn open_views(open: Seq<OpenSegment>) -> Seq<OpenView> {
    Seq::new(open.len(), |i: int| open[i]@)
}

pub open spec fn sealed_views(sealed: Seq<SealedSegment>) -> Seq<SealedView> {
    Seq::new(sealed.len(), |i: int| sealed[i]@)
}

/// The sum of numbers.
pub open spec fn total(numbers: Seq<nat>) -> nat
    decreases numbers.len(),
{
    if numbers.len() == 0 {
        0
    } else {
        total(numbers.drop_last()) + numbers.last()
    }
}

pub open spec fn open_uncompressed(open: Seq<OpenView>) -> Seq<nat> {
    Seq::new(open.len(), |i: int| open[i].uncompressed as nat)
}

pub open spec fn open_resident(open: Seq<OpenView>) -> Seq<nat> {
    Seq::new(open.len(), |i: int| open[i].resident as nat)
}

pub open spec fn sealed_uncompressed(sealed: Seq<SealedView>) -> Seq<nat> {
    Seq::new(sealed.len(), |i: int| sealed[i].uncompressed as nat)
}

pub open spec fn sealed_resident(sealed: Seq<SealedView>) -> Seq<nat> {
    Seq::new(sealed.len(), |i: int| sealed[i].resident as nat)
}

/// The place, from `from` on, of the open segment with this key.
pub open spec fn key_place(open: Seq<OpenView>, key: SegmentKey, from: int) -> Option<int>
    decreases open.len() - from,
{
    if !(0 <= from < open.len()) {
        None
    } else if open[from].key == key {
        Some(from)
    } else {
        key_place(open, key, from + 1)
    }
}

/// The place, from `from` on, at which an open segment with this key belongs.
pub open spec fn insert_place(open: Seq<OpenView>, key: SegmentKey, from: int) -> int
    decreases open.len() - from,
{
    if 0 <= from < open.len() && open[from].key.before(key) {
        insert_place(open, key, from + 1)
    } else {
        from
    }
}

/// The first of the first `count` open segments that no other of them was touched before.
pub open spec fn least_recent(open: Seq<OpenView>, count: int) -> int
    decreases count,
{
    if count <= 1 {
        0
    } else {
        let earlier = least_recent(open, count - 1);
        if open[count - 1].touched < open[earlier].touched {
            count - 1
        } else {
            earlier
        }
    }
}

impl BuildersView {
    /// The stored bytes of all rows that are held.
    pub open spec fn staging(self) -> nat {
        total(open_uncompressed(self.open)) + total(sealed_uncompressed(self.sealed))
    }

    /// The memory of all rows that are held.
    pub open spec fn resident(self) -> nat {
        total(open_resident(self.open)) + total(sealed_resident(self.sealed))
    }

    /// Open segments stand in the order of their keys, none has reached a target, and no more is
    /// held than the limits allow.
    pub open(crate) spec fn well_formed(self, limits: SegmentBuildLimits) -> bool {
        &&& limits.valid()
        &&& self.open.len() <= limits.maximum_open_builders
        &&& self.staging() <= limits.maximum_staging_bytes
        &&& self.resident() <= limits.maximum_estimated_resident_bytes
        &&& forall|i: int, j: int|
            0 <= i < j < self.open.len() ==> (#[trigger] self.open[i]).key.before(
                (#[trigger] self.open[j]).key,
            )
        &&& forall|i: int|
            0 <= i < self.open.len() ==> {
                let builder = #[trigger] self.open[i];
                &&& builder.well_formed()
                &&& builder.rows.len() < limits.target_rows
                &&& builder.uncompressed < limits.target_estimated_bytes
                &&& self.last_observed_at is Some
                &&& builder.opened_at <= self.last_observed_at->0
            }
    }

    /// The state after sealing the open segment at a place.
    pub open spec fn sealing(self, place: int, reason: SealingReason) -> BuildersView {
        BuildersView {
            open: self.open.remove(place),
            sealed: self.sealed.push(self.open[place].sealed(reason)),
            ..self
        }
    }

    /// The state after sealing, in the order of their keys, the segments from `from` on that have
    /// been open too long.
    pub open spec fn sealing_expired(self, from: int, at: u128, maximum: u128) -> BuildersView
        decreases self.open.len() - from,
    {
        if !(0 <= from < self.open.len()) {
            self
        } else if at - self.open[from].opened_at >= maximum {
            self.sealing(from, SealingReason::MaximumAge).sealing_expired(from, at, maximum)
        } else {
            self.sealing_expired(from + 1, at, maximum)
        }
    }

    /// The state after sealing every open segment, in the order of their keys.
    pub open spec fn sealing_all(self, reason: SealingReason) -> BuildersView {
        BuildersView {
            open: Seq::empty(),
            sealed: self.sealed + Seq::new(
                self.open.len(),
                |i: int| self.open[i].sealed(reason),
            ),
            ..self
        }
    }

    /// The state in which a segment that the row would push beyond the byte target is sealed.
    pub open spec fn with_room_for(
        self,
        limits: SegmentBuildLimits,
        key: SegmentKey,
        row: SegmentRow,
    ) -> BuildersView {
        match key_place(self.open, key, 0) {
            Some(place) => if self.open[place].uncompressed + row.estimated_uncompressed_bytes
                > limits.target_estimated_bytes {
                self.sealing(place, SealingReason::ByteTarget)
            } else {
                self
            },
            None => self,
        }
    }

    /// The state in which another segment can be opened if the key has none.
    pub open spec fn with_free_builder(
        self,
        limits: SegmentBuildLimits,
        key: SegmentKey,
    ) -> BuildersView {
        if key_place(self.open, key, 0) is None && self.open.len()
            == limits.maximum_open_builders {
            self.sealing(
                least_recent(self.open, self.open.len() as int),
                SealingReason::BuilderLimit,
            )
        } else {
            self
        }
    }

    /// The place at which a row goes.
    pub open(crate) spec fn row_place(self, key: SegmentKey) -> int {
        match key_place(self.open, key, 0) {
            Some(place) => place,
            None => insert_place(self.open, key, 0),
        }
    }

    /// The state after the row went to its place.
    pub open(crate) spec fn appending(
        self,
        key: SegmentKey,
        row: SegmentRow,
        at: u128,
    ) -> BuildersView {
        let touched = (self.access_sequence + 1) as u64;
        BuildersView {
            open: match key_place(self.open, key, 0) {
                Some(place) => self.open.update(place, self.open[place].with_row(row, touched)),
                None => self.open.insert(
                    insert_place(self.open, key, 0),
                    OpenView::opened(key, row, at, touched),
                ),
            },
            access_sequence: touched,
            ..self
        }
    }

    /// The state in which a segment that reached a target is sealed.
    pub open spec fn sealing_full(self, limits: SegmentBuildLimits, place: int) -> BuildersView {
        if self.open[place].rows.len() >= limits.target_rows {
            self.sealing(place, SealingReason::RowTarget)
        } else if self.open[place].uncompressed >= limits.target_estimated_bytes {
            self.sealing(place, SealingReason::ByteTarget)
        } else {
            self
        }
    }

    /// The state after one row.
    pub open(crate) spec fn with_row(
        self,
        limits: SegmentBuildLimits,
        key: SegmentKey,
        row: SegmentRow,
        at: u128,
    ) -> BuildersView {
        let ready = self.with_room_for(limits, key, row).with_free_builder(limits, key);
        ready.appending(key, row, at).sealing_full(limits, ready.row_place(key))
    }

    /// All rows that are held.
    pub open spec fn held_rows(self) -> Multiset<SegmentRow> {
        open_rows(self.open).add(sealed_rows(self.sealed))
    }

    /// All rows that are held, segment by segment.
    pub open spec fn listed_rows(self) -> Seq<SegmentRow> {
        listed_open_rows(self.open) + listed_sealed_rows(self.sealed)
    }

    /// Whether each segment is estimated at what its rows sum up to.
    pub open spec fn estimates_rows(self) -> bool {
        &&& forall|i: int|
            0 <= i < self.open.len() ==> (#[trigger] self.open[i]).uncompressed
                == rows_uncompressed(self.open[i].rows) && self.open[i].resident == rows_resident(
                self.open[i].rows,
            )
        &&& forall|i: int|
            0 <= i < self.sealed.len() ==> (#[trigger] self.sealed[i]).uncompressed
                == rows_uncompressed(self.sealed[i].rows) && self.sealed[i].resident
                == rows_resident(self.sealed[i].rows)
    }
}

/// The rows of open segments, one behind another.
pub open spec fn listed_open_rows(open: Seq<OpenView>) -> Seq<SegmentRow>
    decreases open.len(),
{
    if open.len() == 0 {
        Seq::empty()
    } else {
        listed_open_rows(open.drop_last()) + open.last().rows
    }
}

/// The rows of sealed segments, one behind another.
pub open spec fn listed_sealed_rows(sealed: Seq<SealedView>) -> Seq<SegmentRow>
    decreases sealed.len(),
{
    if sealed.len() == 0 {
        Seq::empty()
    } else {
        listed_sealed_rows(sealed.drop_last()) + sealed.last().rows
    }
}

proof fn lemma_estimates_join(left: Seq<SegmentRow>, right: Seq<SegmentRow>)
    ensures
        rows_uncompressed(left + right) == rows_uncompressed(left) + rows_uncompressed(right),
        rows_resident(left + right) == rows_resident(left) + rows_resident(right),
    decreases right.len(),
{
    if right.len() == 0 {
        assert(left + right =~= left);
    } else {
        lemma_estimates_join(left, right.drop_last());
        assert((left + right).drop_last() =~= left + right.drop_last());
    }
}

proof fn lemma_open_estimates(open: Seq<OpenView>)
    requires
        forall|i: int|
            0 <= i < open.len() ==> (#[trigger] open[i]).uncompressed == rows_uncompressed(
                open[i].rows,
            ) && open[i].resident == rows_resident(open[i].rows),
    ensures
        total(open_uncompressed(open)) == rows_uncompressed(listed_open_rows(open)),
        total(open_resident(open)) == rows_resident(listed_open_rows(open)),
    decreases open.len(),
{
    if open.len() > 0 {
        lemma_open_estimates(open.drop_last());
        lemma_estimates_join(listed_open_rows(open.drop_last()), open.last().rows);
        assert(open_uncompressed(open).drop_last() =~= open_uncompressed(open.drop_last()));
        assert(open_resident(open).drop_last() =~= open_resident(open.drop_last()));
        assert(open.last() == open[open.len() - 1]);
    }
}

proof fn lemma_sealed_estimates(sealed: Seq<SealedView>)
    requires
        forall|i: int|
            0 <= i < sealed.len() ==> (#[trigger] sealed[i]).uncompressed == rows_uncompressed(
                sealed[i].rows,
            ) && sealed[i].resident == rows_resident(sealed[i].rows),
    ensures
        total(sealed_uncompressed(sealed)) == rows_uncompressed(listed_sealed_rows(sealed)),
        total(sealed_resident(sealed)) == rows_resident(listed_sealed_rows(sealed)),
    decreases sealed.len(),
{
    if sealed.len() > 0 {
        lemma_sealed_estimates(sealed.drop_last());
        lemma_estimates_join(listed_sealed_rows(sealed.drop_last()), sealed.last().rows);
        assert(sealed_uncompressed(sealed).drop_last() =~= sealed_uncompressed(
            sealed.drop_last(),
        ));
        assert(sealed_resident(sealed).drop_last() =~= sealed_resident(sealed.drop_last()));
        assert(sealed.last() == sealed[sealed.len() - 1]);
    }
}

/// What the builders count as held is the sum over each row of each open and each sealed segment.
pub proof fn usage_is_the_sum_of_the_rows(state: BuildersView)
    requires
        state.estimates_rows(),
    ensures
        state.staging() == rows_uncompressed(state.listed_rows()),
        state.resident() == rows_resident(state.listed_rows()),
{
    lemma_open_estimates(state.open);
    lemma_sealed_estimates(state.sealed);
    lemma_estimates_join(listed_open_rows(state.open), listed_sealed_rows(state.sealed));
}

proof fn lemma_listed_open_rows(open: Seq<OpenView>)
    ensures
        listed_open_rows(open).to_multiset() == open_rows(open),
    decreases open.len(),
{
    broadcast use vstd::seq_lib::group_to_multiset_ensures;

    if open.len() > 0 {
        lemma_listed_open_rows(open.drop_last());
        vstd::seq_lib::lemma_multiset_commutative(
            listed_open_rows(open.drop_last()),
            open.last().rows,
        );
    } else {
        assert(listed_open_rows(open).to_multiset() =~= Multiset::empty());
    }
}

proof fn lemma_listed_sealed_rows(sealed: Seq<SealedView>)
    ensures
        listed_sealed_rows(sealed).to_multiset() == sealed_rows(sealed),
    decreases sealed.len(),
{
    broadcast use vstd::seq_lib::group_to_multiset_ensures;

    if sealed.len() > 0 {
        lemma_listed_sealed_rows(sealed.drop_last());
        vstd::seq_lib::lemma_multiset_commutative(
            listed_sealed_rows(sealed.drop_last()),
            sealed.last().rows,
        );
    } else {
        assert(listed_sealed_rows(sealed).to_multiset() =~= Multiset::empty());
    }
}

/// The list of rows holds each row as often as it is held.
pub proof fn listed_rows_are_held(state: BuildersView)
    ensures
        state.listed_rows().to_multiset() == state.held_rows(),
{
    lemma_listed_open_rows(state.open);
    lemma_listed_sealed_rows(state.sealed);
    vstd::seq_lib::lemma_multiset_commutative(
        listed_open_rows(state.open),
        listed_sealed_rows(state.sealed),
    );
}

/// The rows of open segments.
pub open spec fn open_rows(open: Seq<OpenView>) -> Multiset<SegmentRow>
    decreases open.len(),
{
    if open.len() == 0 {
        Multiset::empty()
    } else {
        open_rows(open.drop_last()).add(open.last().rows.to_multiset())
    }
}

/// The rows of sealed segments.
pub open spec fn sealed_rows(sealed: Seq<SealedView>) -> Multiset<SegmentRow>
    decreases sealed.len(),
{
    if sealed.len() == 0 {
        Multiset::empty()
    } else {
        sealed_rows(sealed.drop_last()).add(sealed.last().rows.to_multiset())
    }
}

impl View for SegmentBuilders {
    type V = BuildersView;

    open(crate) spec fn view(&self) -> BuildersView {
        BuildersView {
            open: open_views(self.open@),
            sealed: sealed_views(self.sealed@),
            access_sequence: self.access_sequence,
            last_observed_at: self.last_observed_at,
        }
    }
}

proof fn lemma_total_remove(numbers: Seq<nat>, at: int)
    requires
        0 <= at < numbers.len(),
    ensures
        total(numbers.remove(at)) == total(numbers) - numbers[at],
    decreases numbers.len(),
{
    if at == numbers.len() - 1 {
        assert(numbers.remove(at) =~= numbers.drop_last());
    } else {
        lemma_total_remove(numbers.drop_last(), at);
        assert(numbers.remove(at).drop_last() =~= numbers.drop_last().remove(at));
        assert(numbers.remove(at).last() == numbers.last());
    }
}

proof fn lemma_total_insert(numbers: Seq<nat>, at: int, number: nat)
    requires
        0 <= at <= numbers.len(),
    ensures
        total(numbers.insert(at, number)) == total(numbers) + number,
{
    let more = numbers.insert(at, number);
    lemma_total_remove(more, at);
    assert(more.remove(at) =~= numbers);
}

proof fn lemma_total_update(numbers: Seq<nat>, at: int, number: nat)
    requires
        0 <= at < numbers.len(),
    ensures
        total(numbers.update(at, number)) == total(numbers) - numbers[at] + number,
{
    let changed = numbers.update(at, number);
    lemma_total_remove(changed, at);
    lemma_total_remove(numbers, at);
    assert(changed.remove(at) =~= numbers.remove(at));
}

proof fn lemma_total_push(numbers: Seq<nat>, number: nat)
    ensures
        total(numbers.push(number)) == total(numbers) + number,
{
    assert(numbers.push(number).drop_last() =~= numbers);
}

proof fn lemma_total_member(numbers: Seq<nat>, at: int)
    requires
        0 <= at < numbers.len(),
    ensures
        numbers[at] <= total(numbers),
{
    lemma_total_remove(numbers, at);
}

/// Sealing changes neither what is held nor the order of the keys.
proof fn lemma_sealing(state: BuildersView, limits: SegmentBuildLimits, place: int, reason: SealingReason)
    requires
        state.well_formed(limits),
        0 <= place < state.open.len(),
    ensures
        state.sealing(place, reason).well_formed(limits),
        state.sealing(place, reason).staging() == state.staging(),
        state.sealing(place, reason).resident() == state.resident(),
{
    let after = state.sealing(place, reason);
    lemma_sealing_totals(state, place, reason);
    assert forall|i: int, j: int| 0 <= i < j < after.open.len() implies (
    #[trigger] after.open[i]).key.before((#[trigger] after.open[j]).key) by {
        let a = if i < place {
            i
        } else {
            i + 1
        };
        let b = if j < place {
            j
        } else {
            j + 1
        };
        assert(after.open[i] == state.open[a]);
        assert(after.open[j] == state.open[b]);
    }
    assert forall|i: int| 0 <= i < after.open.len() implies {
        let builder = #[trigger] after.open[i];
        &&& builder.well_formed()
        &&& builder.rows.len() < limits.target_rows
        &&& builder.uncompressed < limits.target_estimated_bytes
        &&& after.last_observed_at is Some
        &&& builder.opened_at <= after.last_observed_at->0
    } by {
        let a = if i < place {
            i
        } else {
            i + 1
        };
        assert(after.open[i] == state.open[a]);
    }
}

proof fn lemma_sealing_totals(state: BuildersView, place: int, reason: SealingReason)
    requires
        0 <= place < state.open.len(),
    ensures
        state.sealing(place, reason).staging() == state.staging(),
        state.sealing(place, reason).resident() == state.resident(),
{
    let after = state.sealing(place, reason);
    let builder = state.open[place];
    lemma_total_remove(open_uncompressed(state.open), place);
    lemma_total_remove(open_resident(state.open), place);
    lemma_total_push(sealed_uncompressed(state.sealed), builder.uncompressed as nat);
    lemma_total_push(sealed_resident(state.sealed), builder.resident as nat);
    assert(open_uncompressed(after.open) =~= open_uncompressed(state.open).remove(place));
    assert(open_resident(after.open) =~= open_resident(state.open).remove(place));
    assert(sealed_uncompressed(after.sealed) =~= sealed_uncompressed(state.sealed).push(
        builder.uncompressed as nat,
    ));
    assert(sealed_resident(after.sealed) =~= sealed_resident(state.sealed).push(
        builder.resident as nat,
    ));
}

proof fn lemma_key_place(open: Seq<OpenView>, key: SegmentKey, from: int)
    requires
        0 <= from <= open.len(),
    ensures
        match key_place(open, key, from) {
            Some(place) => from <= place < open.len() && open[place].key == key,
            None => forall|i: int| from <= i < open.len() ==> (#[trigger] open[i]).key != key,
        },
    decreases open.len() - from,
{
    if from < open.len() && open[from].key != key {
        lemma_key_place(open, key, from + 1);
    }
}

/// In a sequence without the key, the insertion place parts the smaller keys from the greater.
proof fn lemma_insert_place(open: Seq<OpenView>, key: SegmentKey, from: int)
    requires
        0 <= from <= open.len(),
        forall|i: int, j: int|
            0 <= i < j < open.len() ==> (#[trigger] open[i]).key.before(
                (#[trigger] open[j]).key,
            ),
        forall|i: int| 0 <= i < open.len() ==> (#[trigger] open[i]).key != key,
        forall|i: int| 0 <= i < from ==> (#[trigger] open[i]).key.before(key),
    ensures
        from <= insert_place(open, key, from) <= open.len(),
        forall|i: int|
            0 <= i < insert_place(open, key, from) ==> (#[trigger] open[i]).key.before(key),
        forall|i: int|
            insert_place(open, key, from) <= i < open.len() ==> key.before(
                (#[trigger] open[i]).key,
            ),
    decreases open.len() - from,
{
    if from < open.len() {
        if open[from].key.before(key) {
            lemma_insert_place(open, key, from + 1);
        } else {
            let k = open[from].key;
            assert(key.before(k)) by {
                if !key.before(k) {
                    assert(k.source_id == key.source_id);
                    assert(k.schema_id == key.schema_id);
                    assert(k.event_day == key.event_day);
                    assert(k == key);
                }
            }
            assert forall|i: int| from <= i < open.len() implies key.before(
                (#[trigger] open[i]).key,
            ) by {
                if i > from {
                    assert(open[from].key.before(open[i].key));
                }
            }
        }
    }
}

proof fn lemma_least_recent(open: Seq<OpenView>, count: int)
    requires
        0 < count <= open.len(),
    ensures
        0 <= least_recent(open, count) < count,
        forall|i: int|
            0 <= i < count ==> open[least_recent(open, count)].touched <= (
            #[trigger] open[i]).touched,
    decreases count,
{
    if count > 1 {
        lemma_least_recent(open, count - 1);
    }
}

/// A row that fits keeps the state well formed once the segments that it fills are sealed.
proof fn lemma_appending(
    state: BuildersView,
    limits: SegmentBuildLimits,
    key: SegmentKey,
    row: SegmentRow,
    at: u128,
)
    requires
        state.well_formed(limits),
        state.access_sequence < u64::MAX,
        state.last_observed_at == Some(at),
        utc_day(row_time(row) as int) == key.event_day.spec_day(),
        state.staging() + row.estimated_uncompressed_bytes <= limits.maximum_staging_bytes,
        state.resident() + row.estimated_resident_bytes <= limits.maximum_estimated_resident_bytes,
        key_place(state.open, key, 0) is None ==> state.open.len() < limits.maximum_open_builders,
    ensures
        ({
            let after = state.appending(key, row, at);
            let place = state.row_place(key);
            &&& 0 <= place < after.open.len()
            &&& after.staging() == state.staging() + row.estimated_uncompressed_bytes
            &&& after.resident() == state.resident() + row.estimated_resident_bytes
            &&& after.sealing_full(limits, place).well_formed(limits)
            &&& after.sealing_full(limits, place).staging() == after.staging()
            &&& after.sealing_full(limits, place).resident() == after.resident()
        }),
{
    let after = state.appending(key, row, at);
    let place = state.row_place(key);
    let touched = (state.access_sequence + 1) as u64;
    lemma_key_place(state.open, key, 0);
    let u = open_uncompressed(state.open);
    let r = open_resident(state.open);
    match key_place(state.open, key, 0) {
        Some(found) => {
            let grown = state.open[found].with_row(row, touched);
            lemma_total_member(u, found);
            lemma_total_member(r, found);
            lemma_total_update(u, found, grown.uncompressed as nat);
            lemma_total_update(r, found, grown.resident as nat);
            assert(open_uncompressed(after.open) =~= u.update(found, grown.uncompressed as nat));
            assert(open_resident(after.open) =~= r.update(found, grown.resident as nat));
            assert(grown.well_formed()) by {
                assert(grown.rows.drop_last() =~= state.open[found].rows);
            }
        },
        None => {
            lemma_insert_place(state.open, key, 0);
            let opened = OpenView::opened(key, row, at, touched);
            lemma_total_insert(u, place, opened.uncompressed as nat);
            lemma_total_insert(r, place, opened.resident as nat);
            assert(open_uncompressed(after.open) =~= u.insert(place, opened.uncompressed as nat));
            assert(open_resident(after.open) =~= r.insert(place, opened.resident as nat));
            assert(opened.well_formed()) by {
                assert(opened.rows.drop_last() =~= Seq::empty());
                assert(crate::ingestion::segment::rows_uncompressed(opened.rows.drop_last()) == 0);
                assert(crate::ingestion::segment::rows_resident(opened.rows.drop_last()) == 0);
            }
        },
    }
    assert forall|i: int| 0 <= i < after.open.len() && i != place implies {
        let builder = #[trigger] after.open[i];
        &&& builder.well_formed()
        &&& builder.rows.len() < limits.target_rows
        &&& builder.uncompressed < limits.target_estimated_bytes
        &&& builder.opened_at <= at
    } by {
        let a = if key_place(state.open, key, 0) is Some || i < place {
            i
        } else {
            i - 1
        };
        assert(after.open[i] == state.open[a]);
    }
    assert forall|i: int, j: int| 0 <= i < j < after.open.len() implies (
    #[trigger] after.open[i]).key.before((#[trigger] after.open[j]).key) by {
        if key_place(state.open, key, 0) is Some {
            assert(after.open[i].key == state.open[i].key);
            assert(after.open[j].key == state.open[j].key);
        } else {
            if i < place {
                assert(after.open[i] == state.open[i]);
            } else if i > place {
                assert(after.open[i] == state.open[i - 1]);
            }
            if j < place {
                assert(after.open[j] == state.open[j]);
            } else if j > place {
                assert(after.open[j] == state.open[j - 1]);
            }
        }
    }
    let full = after.sealing_full(limits, place);
    if full != after {
        let reason = if after.open[place].rows.len() >= limits.target_rows {
            SealingReason::RowTarget
        } else {
            SealingReason::ByteTarget
        };
        lemma_sealing_totals(after, place, reason);
        assert forall|i: int, j: int| 0 <= i < j < full.open.len() implies (
        #[trigger] full.open[i]).key.before((#[trigger] full.open[j]).key) by {
            let a = if i < place {
                i
            } else {
                i + 1
            };
            let b = if j < place {
                j
            } else {
                j + 1
            };
            assert(full.open[i] == after.open[a]);
            assert(full.open[j] == after.open[b]);
        }
        assert forall|i: int| 0 <= i < full.open.len() implies {
            let builder = #[trigger] full.open[i];
            &&& builder.well_formed()
            &&& builder.rows.len() < limits.target_rows
            &&& builder.uncompressed < limits.target_estimated_bytes
            &&& full.last_observed_at is Some
            &&& builder.opened_at <= full.last_observed_at->0
        } by {
            let a = if i < place {
                i
            } else {
                i + 1
            };
            assert(full.open[i] == after.open[a]);
        }
    }
}

/// What is planned for one row.
#[derive(Clone, Copy, Debug, PartialEq, Eq, Structural)]
pub struct PlannedSegmentRow {
    pub event_day: EventDay,
    pub estimated_uncompressed_bytes: u64,
    pub estimated_resident_bytes: u64,
}

impl SegmentBuilders {
    /// The state is well formed, and the counters hold what the segments sum up to.
    pub open(crate) spec fn well_formed(self) -> bool {
        &&& self@.well_formed(self.limits)
        &&& self.estimated_staging_bytes == self@.staging()
        &&& self.estimated_resident_bytes == self@.resident()
        &&& forall|i: int| 0 <= i < self.sealed@.len() ==> (#[trigger] self.sealed@[i]).well_formed()
    }

    pub open(crate) spec fn spec_limits(self) -> SegmentBuildLimits {
        self.limits
    }

    pub fn new(staging_capacity: SegmentStagingCapacity) -> (r: Self)
        ensures
            r.well_formed(),
            r@ == (BuildersView {
                open: Seq::empty(),
                sealed: Seq::empty(),
                access_sequence: 0,
                last_observed_at: None,
            }),
            r.spec_limits() == SegmentBuildLimits::spec_standard(staging_capacity),
    {
        Self::with_limits(SegmentBuildLimits::standard(staging_capacity))
    }

    pub fn with_limits(limits: SegmentBuildLimits) -> (r: Self)
        requires
            limits.valid(),
        ensures
            r.well_formed(),
            r@ == (BuildersView {
                open: Seq::empty(),
                sealed: Seq::empty(),
                access_sequence: 0,
                last_observed_at: None,
            }),
            r.spec_limits() == limits,
    {
        let builders: SegmentBuilders = SegmentBuilders {
            limits,
            open: Vec::new(),
            sealed: VecDeque::new(),
            estimated_resident_bytes: 0,
            estimated_staging_bytes: 0,
            access_sequence: 0,
            last_observed_at: None,
        };
        proof {
            assert(builders@.open =~= Seq::empty());
            assert(builders@.sealed =~= Seq::empty());
        }
        builders
    }

    /// How much is held. It never exceeds what may be held.
    pub fn usage(&self) -> (r: SegmentBuilderUsage)
        requires
            self.well_formed(),
        ensures
            r.open_builders == self@.open.len(),
            r.sealed_segments == self@.sealed.len(),
            r.estimated_resident_bytes == rows_resident(self@.listed_rows()),
            r.estimated_staging_bytes == rows_uncompressed(self@.listed_rows()),
            r.maximum_estimated_resident_bytes
                == self.spec_limits().maximum_estimated_resident_bytes,
            r.maximum_staging_bytes == self.spec_limits().maximum_staging_bytes,
            r.estimated_resident_bytes <= r.maximum_estimated_resident_bytes,
            r.estimated_staging_bytes <= r.maximum_staging_bytes,
    {
        proof {
            assert forall|i: int| 0 <= i < self@.sealed.len() implies (
            #[trigger] self@.sealed[i]).uncompressed == rows_uncompressed(self@.sealed[i].rows)
                && self@.sealed[i].resident == rows_resident(self@.sealed[i].rows) by {
                assert(self.sealed@[i].well_formed());
            }
            usage_is_the_sum_of_the_rows(self@);
        }
        SegmentBuilderUsage {
            open_builders: self.open.len(),
            sealed_segments: self.sealed.len(),
            estimated_resident_bytes: self.estimated_resident_bytes,
            estimated_staging_bytes: self.estimated_staging_bytes,
            maximum_estimated_resident_bytes: self.limits.maximum_estimated_resident_bytes,
            maximum_staging_bytes: self.limits.maximum_staging_bytes,
        }
    }

    /// Seals the open segment at a place.
    fn seal(&mut self, place: usize, reason: SealingReason)
        requires
            place < old(self)@.open.len(),
            old(self)@.open[place as int].well_formed(),
            forall|i: int|
                0 <= i < old(self).sealed@.len() ==> (#[trigger] old(self).sealed@[i]).well_formed(),
        ensures
            final(self)@ == old(self)@.sealing(place as int, reason),
            final(self).limits == old(self).limits,
            final(self).estimated_resident_bytes == old(self).estimated_resident_bytes,
            final(self).estimated_staging_bytes == old(self).estimated_staging_bytes,
            forall|i: int|
                0 <= i < final(self).sealed@.len() ==> (#[trigger] final(self).sealed@[i]).well_formed(),
    {
        let ghost before = self@;
        let builder: OpenSegment = self.open.remove(place);
        let segment: SealedSegment = builder.seal(reason);
        self.sealed.push_back(segment);
        proof {
            assert(self@.open =~= before.open.remove(place as int));
            assert(self@.sealed =~= before.sealed.push(before.open[place as int].sealed(reason)));
        }
    }

    fn find_key(&self, key: SegmentKey) -> (r: Option<usize>)
        ensures
            match r {
                Some(place) => key_place(self@.open, key, 0) == Some(place as int) && place
                    < self@.open.len(),
                None => key_place(self@.open, key, 0) is None,
            },
    {
        let ghost open = self@.open;
        let mut place: usize = 0;
        while place < self.open.len()
            invariant
                place <= self.open@.len(),
                open == open_views(self.open@),
                open == self@.open,
                key_place(open, key, 0) == key_place(open, key, place as int),
            decreases self.open@.len() - place,
        {
            assert(open[place as int] == self.open@[place as int]@);
            if self.open[place].key == key {
                return Some(place);
            }
            place = place + 1;
        }
        None
    }

    fn find_insert_place(&self, key: SegmentKey) -> (r: usize)
        ensures
            r == insert_place(self@.open, key, 0),
            r <= self@.open.len(),
    {
        let ghost open = self@.open;
        let mut place: usize = 0;
        while place < self.open.len()
            invariant
                place <= self.open@.len(),
                open == open_views(self.open@),
                open == self@.open,
                insert_place(open, key, 0) == insert_place(open, key, place as int),
            decreases self.open@.len() - place,
        {
            assert(open[place as int] == self.open@[place as int]@);
            if !self.open[place].key.comes_before(key) {
                return place;
            }
            place = place + 1;
        }
        place
    }

    fn find_least_recent(&self) -> (r: usize)
        requires
            self@.open.len() > 0,
        ensures
            r == least_recent(self@.open, self@.open.len() as int),
            r < self@.open.len(),
    {
        let ghost open = self@.open;
        let mut place: usize = 0;
        let mut index: usize = 1;
        while index < self.open.len()
            invariant
                1 <= index <= self.open@.len(),
                place < index,
                open == open_views(self.open@),
                open == self@.open,
                place == least_recent(open, index as int),
            decreases self.open@.len() - index,
        {
            assert(open[place as int] == self.open@[place as int]@);
            assert(open[index as int] == self.open@[index as int]@);
            if self.open[index].last_touched_sequence < self.open[place].last_touched_sequence {
                place = index;
            }
            index = index + 1;
        }
        place
    }

    /// Adds one row that fits.
    #[verifier::rlimit(60)]
    #[verifier::spinoff_prover]
    fn push_row(
        &mut self,
        metadata: BatchMetadata,
        row: AcceptedRow,
        planned: PlannedSegmentRow,
        observed_at: u128,
    )
        requires
            old(self).well_formed(),
            old(self)@.access_sequence < u64::MAX,
            old(self)@.last_observed_at == Some(observed_at),
            planned.event_day.spec_day() == utc_day(row.event_time.spec_milliseconds() as int),
            old(self)@.staging() + planned.estimated_uncompressed_bytes
                <= old(self).limits.maximum_staging_bytes,
            old(self)@.resident() + planned.estimated_resident_bytes
                <= old(self).limits.maximum_estimated_resident_bytes,
        ensures
            final(self).well_formed(),
            final(self).limits == old(self).limits,
            final(self)@ == old(self)@.with_row(
                old(self).limits,
                planned_key(metadata, planned),
                planned_row(metadata, row, planned),
                observed_at,
            ),
            final(self)@.staging() == old(self)@.staging() + planned.estimated_uncompressed_bytes,
            final(self)@.resident() == old(self)@.resident() + planned.estimated_resident_bytes,
            final(self)@.access_sequence == old(self)@.access_sequence + 1,
            final(self)@.last_observed_at == old(self)@.last_observed_at,
    {
        let key: SegmentKey = SegmentKey::new(
            metadata.catalog().source_id(),
            metadata.catalog().target_schema_id(),
            planned.event_day,
        );
        let limits: SegmentBuildLimits = self.limits;
        let segment_row: SegmentRow = SegmentRow {
            batch_id: metadata.batch_id(),
            row,
            estimated_uncompressed_bytes: planned.estimated_uncompressed_bytes,
            estimated_resident_bytes: planned.estimated_resident_bytes,
        };
        let ghost start = self@;
        let ghost new_row = segment_row;
        if let Some(place) = self.find_key(key) {
            proof {
                lemma_key_place(start.open, key, 0);
                lemma_total_member(open_uncompressed(start.open), place as int);
                assert(start.open[place as int] == self.open@[place as int]@);
                lemma_sealing(start, limits, place as int, SealingReason::ByteTarget);
            }
            let projected: u64 = self.open[place].estimated_uncompressed_bytes
                + planned.estimated_uncompressed_bytes;
            if projected > limits.target_estimated_bytes {
                self.seal(place, SealingReason::ByteTarget);
            }
        }
        let ghost roomy = self@;
        assert(roomy == start.with_room_for(limits, key, new_row));
        if self.find_key(key).is_none() && self.open.len() == limits.maximum_open_builders {
            let place: usize = self.find_least_recent();
            proof {
                lemma_sealing(roomy, limits, place as int, SealingReason::BuilderLimit);
            }
            self.seal(place, SealingReason::BuilderLimit);
        }
        let ghost ready = self@;
        assert(ready == roomy.with_free_builder(limits, key));
        assert(ready.well_formed(limits));
        assert(ready.staging() == start.staging() && ready.resident() == start.resident());
        self.access_sequence = self.access_sequence + 1;
        let place: usize = match self.find_key(key) {
            Some(place) => {
                proof {
                    lemma_key_place(ready.open, key, 0);
                    lemma_total_member(open_uncompressed(ready.open), place as int);
                    lemma_total_member(open_resident(ready.open), place as int);
                    assert(ready.open[place as int] == self.open@[place as int]@);
                }
                let touched: u64 = self.access_sequence;
                let builder: &mut OpenSegment = &mut self.open[place];
                builder.push(segment_row, touched);
                proof {
                    assert(self@.open =~= ready.open.update(
                        place as int,
                        ready.open[place as int].with_row(new_row, touched),
                    ));
                }
                place
            },
            None => {
                let place: usize = self.find_insert_place(key);
                let touched: u64 = self.access_sequence;
                let opened: OpenSegment = OpenSegment::new(
                    key,
                    segment_row,
                    observed_at,
                    touched,
                );
                self.open.insert(place, opened);
                proof {
                    assert(self@.open =~= ready.open.insert(
                        place as int,
                        OpenView::opened(key, new_row, observed_at, touched),
                    ));
                }
                place
            },
        };
        let ghost grown = self@;
        proof {
            assert(grown.sealed =~= ready.sealed);
            assert(grown == ready.appending(key, new_row, observed_at));
            assert(place == ready.row_place(key));
            lemma_key_place(ready.open, key, 0);
            lemma_appending(ready, limits, key, new_row, observed_at);
            assert(grown.open[place as int] == self.open@[place as int]@);
        }
        self.estimated_resident_bytes =
        self.estimated_resident_bytes + planned.estimated_resident_bytes;
        self.estimated_staging_bytes =
        self.estimated_staging_bytes + planned.estimated_uncompressed_bytes;
        if self.open[place].rows.len() >= limits.target_rows {
            self.seal(place, SealingReason::RowTarget);
        } else if self.open[place].estimated_uncompressed_bytes >= limits.target_estimated_bytes {
            self.seal(place, SealingReason::ByteTarget);
        }
        assert(self@ == grown.sealing_full(limits, place as int));
    }
}

/// The key of the segment that a row goes to.
pub open spec fn planned_key(metadata: BatchMetadata, planned: PlannedSegmentRow) -> SegmentKey {
    SegmentKey {
        source_id: metadata.catalog.source_id,
        schema_id: metadata.catalog.target_schema_id,
        event_day: planned.event_day,
    }
}

/// A row as a segment holds it.
pub open spec fn planned_row(
    metadata: BatchMetadata,
    row: AcceptedRow,
    planned: PlannedSegmentRow,
) -> SegmentRow {
    SegmentRow {
        batch_id: metadata.batch_id,
        row,
        estimated_uncompressed_bytes: planned.estimated_uncompressed_bytes,
        estimated_resident_bytes: planned.estimated_resident_bytes,
    }
}

/// The rows among records.
pub open spec fn accepted_rows(records: Seq<NormalizedRecord>) -> Seq<AcceptedRow>
    decreases records.len(),
{
    if records.len() == 0 {
        Seq::empty()
    } else {
        match records.last() {
            NormalizedRecord::Accepted(row) => accepted_rows(records.drop_last()).push(row),
            NormalizedRecord::DeadLetter(_) => accepted_rows(records.drop_last()),
        }
    }
}

/// The rejected records among records.
pub open spec fn rejected_records(records: Seq<NormalizedRecord>) -> Seq<DeadLetterEntry>
    decreases records.len(),
{
    if records.len() == 0 {
        Seq::empty()
    } else {
        match records.last() {
            NormalizedRecord::Accepted(_) => rejected_records(records.drop_last()),
            NormalizedRecord::DeadLetter(entry) => rejected_records(records.drop_last()).push(
                entry,
            ),
        }
    }
}

pub open spec fn planned_uncompressed(rows: Seq<PlannedSegmentRow>) -> Seq<nat> {
    Seq::new(rows.len(), |i: int| rows[i].estimated_uncompressed_bytes as nat)
}

pub open spec fn planned_resident(rows: Seq<PlannedSegmentRow>) -> Seq<nat> {
    Seq::new(rows.len(), |i: int| rows[i].estimated_resident_bytes as nat)
}

/// What is planned for the rows of a batch.
#[derive(Debug)]
pub struct BatchRowPlan {
    pub total_estimated_uncompressed_bytes: u64,
    pub total_estimated_resident_bytes: u64,
    pub rows: Vec<PlannedSegmentRow>,
}

impl BatchRowPlan {
    /// Each row has its place in the plan, with its day, and the totals are the sums.
    pub open spec fn plans(self, records: Seq<NormalizedRecord>) -> bool {
        &&& self.rows@.len() == accepted_rows(records).len()
        &&& self.total_estimated_uncompressed_bytes == total(planned_uncompressed(self.rows@))
        &&& self.total_estimated_resident_bytes == total(planned_resident(self.rows@))
        &&& forall|i: int|
            0 <= i < self.rows@.len() ==> (#[trigger] self.rows@[i]).event_day.spec_day()
                == utc_day(accepted_rows(records)[i].event_time.spec_milliseconds() as int)
    }
}

/// The stored bytes of rows.
pub open spec fn rows_bytes(rows: Seq<AcceptedRow>) -> Seq<nat> {
    Seq::new(rows.len(), |i: int| row_bytes(rows[i]@))
}

/// The memory of rows whose parts have these capacities.
pub open spec fn rows_memory(rows: Seq<AcceptedRow>, capacities: Seq<Seq<usize>>) -> Seq<nat> {
    Seq::new(rows.len(), |i: int| row_memory(rows[i]@, capacities[i]))
}

/// What vectors of capacities hold.
pub open spec fn capacity_views(capacities: Seq<Vec<usize>>) -> Seq<Seq<usize>> {
    Seq::new(capacities.len(), |i: int| capacities[i]@)
}

/// Whether these can be the capacities of the parts of each row.
pub open spec fn rows_measured(capacities: Seq<Seq<usize>>, rows: Seq<AcceptedRow>) -> bool {
    &&& capacities.len() == rows.len()
    &&& forall|i: int|
        0 <= i < rows.len() ==> capacities_of(
            #[trigger] capacities[i],
            measured_parts(rows[i]@),
        )
}

/// Whether the stored bytes or the memory of rows cannot be counted.
pub open spec fn rows_overflow(rows: Seq<AcceptedRow>, capacities: Seq<Seq<usize>>) -> bool {
    total(rows_bytes(rows)) > u64::MAX || total(rows_memory(rows, capacities)) > u64::MAX
}

/// Whether each row has its place in a plan, with its day, its stored bytes, and the memory that it
/// occupies with these capacities.
pub open spec fn planned_for(
    plans: Seq<PlannedSegmentRow>,
    records: Seq<NormalizedRecord>,
    capacities: Seq<Seq<usize>>,
) -> bool {
    &&& plans.len() == accepted_rows(records).len()
    &&& forall|i: int|
        0 <= i < plans.len() ==> {
            let row = accepted_rows(records)[i];
            let planned = #[trigger] plans[i];
            &&& planned.event_day.spec_day() == utc_day(row.event_time.spec_milliseconds() as int)
            &&& planned.estimated_uncompressed_bytes == row_bytes(row@)
            &&& planned.estimated_resident_bytes == row_memory(row@, capacities[i])
        }
}

/// What planning records is answered, if the parts of their rows have these capacities.
pub open spec fn planning(
    r: Result<BatchRowPlan, SegmentBuildError>,
    records: Seq<NormalizedRecord>,
    capacities: Seq<Seq<usize>>,
) -> bool {
    match r {
        Ok(plan) => {
            &&& !rows_overflow(accepted_rows(records), capacities)
            &&& plan.plans(records)
            &&& planned_for(plan.rows@, records, capacities)
        },
        Err(e) => {
            &&& rows_overflow(accepted_rows(records), capacities)
            &&& e == SegmentBuildError::EstimatedBytesOverflow
        },
    }
}

/// Measures the capacities that the allocator gave to the parts of each row of a batch.
pub fn measure_batch_rows(batch: &NormalizedBatch) -> (r: Vec<Vec<usize>>)
    ensures
        rows_measured(capacity_views(r@), accepted_rows(batch.records@)),
{
    let ghost all = batch.records@;
    let mut capacities: Vec<Vec<usize>> = Vec::new();
    let mut index: usize = 0;
    assert(all.subrange(0, 0) =~= Seq::empty());
    while index < batch.records.len()
        invariant
            index <= all.len(),
            all == batch.records@,
            rows_measured(
                capacity_views(capacities@),
                accepted_rows(all.subrange(0, index as int)),
            ),
        decreases all.len() - index,
    {
        let ghost through = all.subrange(0, index + 1);
        assert(through.drop_last() =~= all.subrange(0, index as int));
        assert(through.last() == all[index as int]);
        if let NormalizedRecord::Accepted(row) = &batch.records[index] {
            let ghost before = capacity_views(capacities@);
            let measured: Vec<usize> = measure_row(row);
            capacities.push(measured);
            assert(capacity_views(capacities@) =~= before.push(measured@));
        }
        index = index + 1;
    }
    assert(all.subrange(0, all.len() as int) =~= all);
    capacities
}

/// The first rows sum up to no more than all rows.
proof fn lemma_rows_totals(rows: Seq<AcceptedRow>, capacities: Seq<Seq<usize>>, count: int)
    requires
        0 <= count < rows.len(),
    ensures
        total(rows_bytes(rows.subrange(0, count + 1))) == total(
            rows_bytes(rows.subrange(0, count)),
        ) + row_bytes(rows[count]@),
        total(rows_memory(rows.subrange(0, count + 1), capacities)) == total(
            rows_memory(rows.subrange(0, count), capacities),
        ) + row_memory(rows[count]@, capacities[count]),
        total(rows_bytes(rows.subrange(0, count + 1))) <= total(rows_bytes(rows)),
        total(rows_memory(rows.subrange(0, count + 1), capacities)) <= total(
            rows_memory(rows, capacities),
        ),
{
    let less = rows.subrange(0, count);
    let more = rows.subrange(0, count + 1);
    assert(rows_bytes(more).drop_last() =~= rows_bytes(less));
    assert(rows_memory(more, capacities).drop_last() =~= rows_memory(less, capacities));
    let bytes = rows_bytes(rows);
    let memory = rows_memory(rows, capacities);
    lemma_total_parts(
        bytes.subrange(0, count + 1),
        bytes.subrange(count + 1, bytes.len() as int),
    );
    lemma_total_parts(
        memory.subrange(0, count + 1),
        memory.subrange(count + 1, memory.len() as int),
    );
    assert(bytes.subrange(0, count + 1) + bytes.subrange(count + 1, bytes.len() as int)
        =~= bytes);
    assert(memory.subrange(0, count + 1) + memory.subrange(count + 1, memory.len() as int)
        =~= memory);
    assert(bytes.subrange(0, count + 1) =~= rows_bytes(more));
    assert(memory.subrange(0, count + 1) =~= rows_memory(more, capacities));
}

/// Plans the rows of a batch, if the parts of each row have these capacities.
pub fn plan_measured_rows(batch: &NormalizedBatch, capacities: &Vec<Vec<usize>>) -> (r: Result<
    BatchRowPlan,
    SegmentBuildError,
>)
    requires
        capacities@.len() == accepted_rows(batch.records@).len(),
        forall|i: int|
            0 <= i < capacities@.len() ==> (#[trigger] capacities@[i])@.len() == measured_parts(
                accepted_rows(batch.records@)[i]@,
            ).len(),
    ensures
        planning(r, batch.records@, capacity_views(capacities@)),
{
    let ghost held = capacity_views(capacities@);
    let ghost everything = accepted_rows(batch.records@);
    let ghost all = batch.records@;
    let mut total_uncompressed: u64 = 0;
    let mut total_resident: u64 = 0;
    let mut rows: Vec<PlannedSegmentRow> = Vec::new();
    let mut index: usize = 0;
    assert(all.subrange(0, 0) =~= Seq::empty());
    assert(planned_uncompressed(rows@) =~= Seq::empty());
    assert(planned_resident(rows@) =~= Seq::empty());
    assert(rows_bytes(everything.subrange(0, 0)) =~= Seq::empty());
    assert(rows_memory(everything.subrange(0, 0), held) =~= Seq::empty());
    while index < batch.records.len()
        invariant
            index <= all.len(),
            all == batch.records@,
            everything == accepted_rows(all),
            held == capacity_views(capacities@),
            capacities@.len() == everything.len(),
            forall|i: int|
                0 <= i < capacities@.len() ==> (#[trigger] capacities@[i])@.len()
                    == measured_parts(everything[i]@).len(),
            rows@.len() == accepted_rows(all.subrange(0, index as int)).len(),
            rows@.len() <= everything.len(),
            total_uncompressed == total(
                rows_bytes(everything.subrange(0, rows@.len() as int)),
            ),
            total_resident == total(
                rows_memory(everything.subrange(0, rows@.len() as int), held),
            ),
            total_uncompressed == total(planned_uncompressed(rows@)),
            total_resident == total(planned_resident(rows@)),
            forall|i: int|
                0 <= i < rows@.len() ==> {
                    let row = everything[i];
                    let planned = #[trigger] rows@[i];
                    &&& planned.event_day.spec_day() == utc_day(
                        row.event_time.spec_milliseconds() as int,
                    )
                    &&& planned.estimated_uncompressed_bytes == row_bytes(row@)
                    &&& planned.estimated_resident_bytes == row_memory(row@, held[i])
                },
        decreases all.len() - index,
    {
        let ghost through = all.subrange(0, index + 1);
        assert(through.drop_last() =~= all.subrange(0, index as int));
        assert(through.last() == all[index as int]);
        if let NormalizedRecord::Accepted(row) = &batch.records[index] {
            let place: usize = rows.len();
            proof {
                lemma_accepted_prefix(all, index + 1);
                assert(everything[place as int] == accepted_rows(through)[place as int]);
                lemma_rows_totals(everything, held, place as int);
            }
            let uncompressed: u64 = match estimate_row(row) {
                Ok(bytes) => bytes,
                Err(e) => {
                    return Err(e);
                },
            };
            let resident: u64 = match resident_row_bytes(row, capacities[place].as_slice()) {
                Ok(bytes) => bytes,
                Err(e) => {
                    return Err(e);
                },
            };
            proof {
                lemma_total_push(planned_uncompressed(rows@), uncompressed as nat);
                lemma_total_push(planned_resident(rows@), resident as nat);
            }
            total_uncompressed = match total_uncompressed.checked_add(uncompressed) {
                Some(sum) => sum,
                None => {
                    return Err(SegmentBuildError::EstimatedBytesOverflow);
                },
            };
            total_resident = match total_resident.checked_add(resident) {
                Some(sum) => sum,
                None => {
                    return Err(SegmentBuildError::EstimatedBytesOverflow);
                },
            };
            let ghost before = rows@;
            rows.push(
                PlannedSegmentRow {
                    event_day: EventDay::from_event_time(row.event_time()),
                    estimated_uncompressed_bytes: uncompressed,
                    estimated_resident_bytes: resident,
                },
            );
            proof {
                assert(planned_uncompressed(rows@) =~= planned_uncompressed(before).push(
                    uncompressed as nat,
                ));
                assert(planned_resident(rows@) =~= planned_resident(before).push(
                    resident as nat,
                ));
            }
        }
        index = index + 1;
    }
    assert(all.subrange(0, all.len() as int) =~= all);
    assert(everything.subrange(0, everything.len() as int) =~= everything);
    Ok(
        BatchRowPlan {
            total_estimated_uncompressed_bytes: total_uncompressed,
            total_estimated_resident_bytes: total_resident,
            rows,
        },
    )
}

/// Plans the rows of a batch. Their memory depends on the capacities that the allocator gave.
pub fn plan_batch_rows(batch: &NormalizedBatch) -> (r: Result<BatchRowPlan, SegmentBuildError>)
    ensures
        exists|capacities: Seq<Seq<usize>>|
            rows_measured(capacities, accepted_rows(batch.records@)) && #[trigger] planning(
                r,
                batch.records@,
                capacities,
            ),
{
    let capacities: Vec<Vec<usize>> = measure_batch_rows(batch);
    assert forall|i: int| 0 <= i < capacities@.len() implies (#[trigger] capacities@[i])@.len()
        == measured_parts(accepted_rows(batch.records@)[i]@).len() by {
        assert(capacity_views(capacities@)[i] == capacities@[i]@);
    }
    plan_measured_rows(batch, &capacities)
}

impl BuildersView {
    /// The state after an instant was observed.
    pub open spec fn observing(self, at: u128) -> BuildersView {
        BuildersView { last_observed_at: Some(at), ..self }
    }

    /// The state after an instant was observed and the segments that are too old were sealed.
    pub open spec fn at_instant(self, at: u128, limits: SegmentBuildLimits) -> BuildersView {
        self.observing(at).sealing_expired(0, at, limits.maximum_open_nanoseconds)
    }

    /// The state after rows.
    pub open(crate) spec fn with_rows(
        self,
        limits: SegmentBuildLimits,
        metadata: BatchMetadata,
        rows: Seq<AcceptedRow>,
        plans: Seq<PlannedSegmentRow>,
        at: u128,
    ) -> BuildersView
        decreases rows.len(),
    {
        if rows.len() == 0 {
            self
        } else {
            self.with_rows(limits, metadata, rows.drop_last(), plans.drop_last(), at).with_row(
                limits,
                planned_key(metadata, plans.last()),
                planned_row(metadata, rows.last(), plans.last()),
                at,
            )
        }
    }

    /// Which budget a batch would exceed beside what is held.
    pub open spec fn pressure(self, limits: SegmentBuildLimits, plan: BatchRowPlan) -> Option<
        SegmentCapacity,
    > {
        if self.resident() + plan.total_estimated_resident_bytes
            > limits.maximum_estimated_resident_bytes {
            Some(SegmentCapacity::ResidentMemory)
        } else if self.staging() + plan.total_estimated_uncompressed_bytes
            > limits.maximum_staging_bytes {
            Some(SegmentCapacity::Staging)
        } else {
            None
        }
    }

    /// Why a batch is refused.
    pub open spec fn refusal(self, limits: SegmentBuildLimits, plan: BatchRowPlan) -> Option<
        SegmentBuildError,
    > {
        if plan.total_estimated_resident_bytes > limits.maximum_estimated_resident_bytes {
            Some(
                SegmentBuildError::BatchExceedsCapacity {
                    capacity: SegmentCapacity::ResidentMemory,
                    estimated_bytes: plan.total_estimated_resident_bytes,
                    maximum_bytes: limits.maximum_estimated_resident_bytes,
                },
            )
        } else if plan.total_estimated_uncompressed_bytes > limits.maximum_staging_bytes {
            Some(
                SegmentBuildError::BatchExceedsCapacity {
                    capacity: SegmentCapacity::Staging,
                    estimated_bytes: plan.total_estimated_uncompressed_bytes,
                    maximum_bytes: limits.maximum_staging_bytes,
                },
            )
        } else if self.resident() + plan.total_estimated_resident_bytes > u64::MAX
            || self.staging() + plan.total_estimated_uncompressed_bytes > u64::MAX {
            Some(SegmentBuildError::EstimatedBytesOverflow)
        } else if self.pressure(limits, plan) is None && self.access_sequence + plan.rows@.len()
            > u64::MAX {
            Some(SegmentBuildError::AccessSequenceExhausted)
        } else {
            None
        }
    }

    /// What adding a batch to this state is answered if the parts of its rows have these capacities,
    /// and the state behind it.
    pub open(crate) spec fn pushed_measured(
        self,
        limits: SegmentBuildLimits,
        batch: NormalizedBatch,
        capacities: Seq<Seq<usize>>,
        at: u128,
        answer: Result<SegmentBuildOutcome, SegmentBuildError>,
        after: BuildersView,
    ) -> bool {
        if rows_overflow(accepted_rows(batch.records@), capacities) {
            &&& answer == Err::<SegmentBuildOutcome, SegmentBuildError>(
                SegmentBuildError::EstimatedBytesOverflow,
            )
            &&& after == self
        } else {
            exists|plan: BatchRowPlan|
                {
                    &&& plan.plans(batch.records@)
                    &&& planned_for(plan.rows@, batch.records@, capacities)
                    &&& #[trigger] self.pushed(limits, batch, plan, at, answer, after)
                }
        }
    }

    /// What adding a batch to this state, as planned, is answered, and the state behind it.
    pub open(crate) spec fn pushed(
        self,
        limits: SegmentBuildLimits,
        batch: NormalizedBatch,
        plan: BatchRowPlan,
        at: u128,
        answer: Result<SegmentBuildOutcome, SegmentBuildError>,
        after: BuildersView,
    ) -> bool {
        if self.refusal(limits, plan) is Some {
            &&& answer == Err::<SegmentBuildOutcome, SegmentBuildError>(
                self.refusal(limits, plan)->0,
            )
            &&& after == self
        } else if self.pressure(limits, plan) is Some {
            let capacity = self.pressure(limits, plan)->0;
            &&& answer == Ok::<SegmentBuildOutcome, SegmentBuildError>(
                SegmentBuildOutcome::Deferred { batch, capacity },
            )
            &&& after == self.sealing_all(SealingReason::CapacityPressure(capacity))
        } else {
            &&& answer matches Ok(SegmentBuildOutcome::Accepted(summary))
            &&& summary.metadata == batch.metadata
            &&& summary.ignored_records == batch.ignored_records
            &&& summary.dead_letters@ == rejected_records(batch.records@)
            &&& after == self.with_rows(
                limits,
                batch.metadata,
                accepted_rows(batch.records@),
                plan.rows@,
                at,
            )
        }
    }

    /// The time that is left before the open segment at a place is too old.
    pub open spec fn time_left(self, place: int, at: u128, maximum: u128) -> int {
        if at - self.open[place].opened_at >= maximum {
            0
        } else {
            maximum - (at - self.open[place].opened_at)
        }
    }

    /// Whether `left` is the least time that is left to any of the first `count` open segments.
    pub open spec fn expires_in(self, count: int, at: u128, maximum: u128, left: Option<u128>) -> bool {
        match left {
            None => count == 0,
            Some(least) => {
                &&& exists|i: int|
                    0 <= i < count && least == #[trigger] self.time_left(i, at, maximum)
                &&& forall|i: int|
                    0 <= i < count ==> least <= #[trigger] self.time_left(i, at, maximum)
            },
        }
    }
}

proof fn lemma_sealing_expired(
    state: BuildersView,
    limits: SegmentBuildLimits,
    from: int,
    at: u128,
    maximum: u128,
)
    requires
        state.well_formed(limits),
        0 <= from <= state.open.len(),
    ensures
        ({
            let after = state.sealing_expired(from, at, maximum);
            &&& after.well_formed(limits)
            &&& after.staging() == state.staging()
            &&& after.resident() == state.resident()
            &&& after.last_observed_at == state.last_observed_at
            &&& after.access_sequence == state.access_sequence
        }),
    decreases state.open.len() - from,
{
    if from < state.open.len() {
        if at - state.open[from].opened_at >= maximum {
            lemma_sealing(state, limits, from, SealingReason::MaximumAge);
            lemma_sealing_expired(
                state.sealing(from, SealingReason::MaximumAge),
                limits,
                from,
                at,
                maximum,
            );
        } else {
            lemma_sealing_expired(state, limits, from + 1, at, maximum);
        }
    }
}

proof fn lemma_total_parts(left: Seq<nat>, right: Seq<nat>)
    ensures
        total(left + right) == total(left) + total(right),
    decreases right.len(),
{
    if right.len() == 0 {
        assert(left + right =~= left);
    } else {
        lemma_total_parts(left, right.drop_last());
        assert((left + right).drop_last() =~= left + right.drop_last());
    }
}

impl SegmentBuilders {
    /// The time that is left before the oldest open segment must be sealed.
    pub fn next_expiration_in(&self, observed_at: u128) -> (r: Result<
        Option<u128>,
        SegmentBuildError,
    >)
        requires
            self.well_formed(),
        ensures
            ({
                let maximum = self.spec_limits().maximum_open_nanoseconds;
                if self@.last_observed_at is Some && observed_at < self@.last_observed_at->0 {
                    r == Err::<Option<u128>, SegmentBuildError>(
                        SegmentBuildError::ClockMovedBackwards,
                    )
                } else {
                    r matches Ok(left) && self@.expires_in(
                        self@.open.len() as int,
                        observed_at,
                        maximum,
                        left,
                    )
                }
            }),
    {
        if let Some(previous) = self.last_observed_at {
            if observed_at < previous {
                return Err(SegmentBuildError::ClockMovedBackwards);
            }
        }
        let maximum: u128 = self.limits.maximum_open_nanoseconds;
        let ghost state = self@;
        let mut earliest: Option<u128> = None;
        let mut index: usize = 0;
        while index < self.open.len()
            invariant
                index <= self.open@.len(),
                state == self@,
                state.well_formed(self.limits),
                state.open.len() == self.open@.len(),
                state.last_observed_at is Some ==> state.last_observed_at->0 <= observed_at,
                maximum == self.limits.maximum_open_nanoseconds,
                state.expires_in(index as int, observed_at, maximum, earliest),
            decreases self.open@.len() - index,
        {
            assert(state.open[index as int] == self.open@[index as int]@);
            let age: u128 = observed_at - self.open[index].opened_at;
            let remaining: u128 = if age >= maximum {
                0
            } else {
                maximum - age
            };
            assert(remaining == state.time_left(index as int, observed_at, maximum));
            let ghost previous = earliest;
            earliest =
            match earliest {
                None => Some(remaining),
                Some(left) => if remaining < left {
                    Some(remaining)
                } else {
                    Some(left)
                },
            };
            proof {
                if previous is Some && earliest == previous {
                    let left = previous->0;
                    let i = choose|i: int|
                        0 <= i < index && left == #[trigger] state.time_left(
                            i,
                            observed_at,
                            maximum,
                        );
                    assert(left == state.time_left(i, observed_at, maximum));
                }
            }
            index = index + 1;
        }
        Ok(earliest)
    }

    /// Seals the segments that are too old at an instant that is then the last observed.
    fn advance_to(&mut self, observed_at: u128) -> (r: u64)
        requires
            old(self).well_formed(),
            old(self)@.last_observed_at is Some ==> old(self)@.last_observed_at->0 <= observed_at,
        ensures
            final(self).well_formed(),
            final(self).limits == old(self).limits,
            final(self)@ == old(self)@.at_instant(observed_at, old(self).limits),
            final(self)@.last_observed_at == Some(observed_at),
            final(self)@.staging() == old(self)@.staging(),
            final(self)@.resident() == old(self)@.resident(),
            final(self)@.access_sequence == old(self)@.access_sequence,
            r == old(self)@.open.len() - final(self)@.open.len(),
    {
        let ghost before = self@;
        let limits: SegmentBuildLimits = self.limits;
        let maximum: u128 = limits.maximum_open_nanoseconds;
        self.last_observed_at = Some(observed_at);
        let ghost observed = self@;
        proof {
            assert(observed.open =~= before.open);
            assert(observed.sealed =~= before.sealed);
            assert(observed == before.observing(observed_at));
            lemma_sealing_expired(observed, limits, 0, observed_at, maximum);
        }
        let mut count: u64 = 0;
        let mut index: usize = 0;
        while index < self.open.len()
            invariant
                index <= self.open@.len(),
                self.well_formed(),
                self.limits == limits,
                maximum == limits.maximum_open_nanoseconds,
                self@.last_observed_at == Some(observed_at),
                self@.open.len() == self.open@.len(),
                count == before.open.len() - self@.open.len(),
                self@.staging() == before.staging(),
                self@.resident() == before.resident(),
                before.open.len() <= usize::MAX,
                before.at_instant(observed_at, limits) == self@.sealing_expired(
                    index as int,
                    observed_at,
                    maximum,
                ),
            decreases self.open@.len() - index,
        {
            let ghost state = self@;
            assert(state.open[index as int] == self.open@[index as int]@);
            if observed_at - self.open[index].opened_at >= maximum {
                proof {
                    lemma_sealing(state, limits, index as int, SealingReason::MaximumAge);
                }
                self.seal(index, SealingReason::MaximumAge);
                count = count + 1;
            } else {
                index = index + 1;
            }
        }
        count
    }

    /// Seals the segments that have been open too long, and returns how many.
    pub fn seal_expired(&mut self, observed_at: u128) -> (r: Result<u64, SegmentBuildError>)
        requires
            old(self).well_formed(),
        ensures
            final(self).well_formed(),
            final(self).spec_limits() == old(self).spec_limits(),
            if old(self)@.last_observed_at is Some && observed_at < old(
                self)@.last_observed_at->0 {
                r == Err::<u64, SegmentBuildError>(SegmentBuildError::ClockMovedBackwards)
                    && final(self)@ == old(self)@
            } else {
                &&& final(self)@ == old(self)@.at_instant(observed_at, old(self).spec_limits())
                &&& forall|i: int|
                    0 <= i < final(self)@.open.len() ==> observed_at - (
                    #[trigger] final(self)@.open[i]).opened_at < old(
                        self).spec_limits().maximum_open_nanoseconds
                &&& r == Ok::<u64, SegmentBuildError>(
                    (old(self)@.open.len() - final(self)@.open.len()) as u64,
                )
            },
    {
        if let Some(previous) = self.last_observed_at {
            if observed_at < previous {
                return Err(SegmentBuildError::ClockMovedBackwards);
            }
        }
        proof {
            exactly_the_aged_segments_expire(self@, observed_at, self.limits);
        }
        Ok(self.advance_to(observed_at))
    }

    fn seal_all_with_reason(&mut self, reason: SealingReason) -> (r: u64)
        requires
            old(self).well_formed(),
        ensures
            final(self).well_formed(),
            final(self).limits == old(self).limits,
            final(self)@ == old(self)@.sealing_all(reason),
            r == old(self)@.open.len(),
    {
        let ghost before = self@;
        let limits: SegmentBuildLimits = self.limits;
        let count: u64 = self.open.len() as u64;
        let ghost mut done: int = 0;
        proof {
            assert(before.open.subrange(0, before.open.len() as int) =~= before.open);
        }
        while self.open.len() > 0
            invariant
                0 <= done <= before.open.len(),
                self.well_formed(),
                self.limits == limits,
                self@.open == before.open.subrange(done, before.open.len() as int),
                self@.sealed == before.sealed + Seq::new(
                    done as nat,
                    |i: int| before.open[i].sealed(reason),
                ),
                self@.access_sequence == before.access_sequence,
                self@.last_observed_at == before.last_observed_at,
            decreases self.open@.len(),
        {
            let ghost state = self@;
            assert(state.open[0] == self.open@[0]@);
            proof {
                lemma_sealing(state, limits, 0, reason);
            }
            self.seal(0, reason);
            proof {
                assert(state.open[0] == before.open[done]);
                assert(self@.open =~= before.open.subrange(done + 1, before.open.len() as int));
                assert(self@.sealed =~= before.sealed + Seq::new(
                    (done + 1) as nat,
                    |i: int| before.open[i].sealed(reason),
                ));
                done = done + 1;
            }
        }
        proof {
            assert(self@.open.len() == self.open@.len());
            assert(done == before.open.len());
            assert(self@.open =~= Seq::empty());
        }
        count
    }

    /// Seals every open segment, in the order of their keys, and returns how many.
    pub fn flush_all(&mut self) -> (r: Result<u64, SegmentBuildError>)
        requires
            old(self).well_formed(),
        ensures
            final(self).well_formed(),
            final(self).spec_limits() == old(self).spec_limits(),
            final(self)@ == old(self)@.sealing_all(SealingReason::Flush),
            r == Ok::<u64, SegmentBuildError>(old(self)@.open.len() as u64),
    {
        Ok(self.seal_all_with_reason(SealingReason::Flush))
    }

    /// Hands over the segment that was sealed first.
    pub fn take_next_sealed(&mut self) -> (r: Result<Option<SealedSegment>, SegmentBuildError>)
        requires
            old(self).well_formed(),
        ensures
            final(self).well_formed(),
            final(self).spec_limits() == old(self).spec_limits(),
            match r {
                Ok(None) => old(self)@.sealed.len() == 0 && final(self)@ == old(self)@,
                Ok(Some(segment)) => {
                    &&& old(self)@.sealed.len() > 0
                    &&& segment@ == old(self)@.sealed[0]
                    &&& segment.well_formed()
                    &&& final(self)@ == (BuildersView {
                        sealed: old(self)@.sealed.subrange(1, old(self)@.sealed.len() as int),
                        ..old(self)@
                    })
                },
                Err(_) => false,
            },
    {
        let ghost before = self@;
        let ghost queue = self.sealed@;
        match self.sealed.pop_front() {
            None => {
                assert(self@.sealed =~= before.sealed);
                assert(self@.open =~= before.open);
                Ok(None)
            },
            Some(segment) => {
                proof {
                    assert(segment == queue[0]);
                    assert(before.sealed[0] == segment@);
                    assert(self@.sealed =~= before.sealed.subrange(1, before.sealed.len() as int));
                    assert(self@.open =~= before.open);
                    let u = sealed_uncompressed(before.sealed);
                    let m = sealed_resident(before.sealed);
                    lemma_total_remove(u, 0);
                    lemma_total_remove(m, 0);
                    assert(sealed_uncompressed(self@.sealed) =~= u.remove(0));
                    assert(sealed_resident(self@.sealed) =~= m.remove(0));
                    assert forall|i: int| 0 <= i < self.sealed@.len() implies (
                    #[trigger] self.sealed@[i]).well_formed() by {
                        assert(self.sealed@[i] == queue[i + 1]);
                    }
                }
                self.estimated_resident_bytes =
                self.estimated_resident_bytes - segment.estimated_resident_bytes;
                self.estimated_staging_bytes =
                self.estimated_staging_bytes - segment.estimated_uncompressed_bytes;
                assert(self@ == (BuildersView {
                    sealed: before.sealed.subrange(1, before.sealed.len() as int),
                    ..before
                }));
                Ok(Some(segment))
            },
        }
    }

    /// Adds the rows of a batch, as planned, or hands the batch back if segments must drain first.
    pub fn push_planned_batch(
        &mut self,
        batch: NormalizedBatch,
        plan: BatchRowPlan,
        observed_at: u128,
    ) -> (r: Result<SegmentBuildOutcome, SegmentBuildError>)
        requires
            old(self).well_formed(),
            plan.plans(batch.records@),
        ensures
            final(self).well_formed(),
            final(self).spec_limits() == old(self).spec_limits(),
            ({
                let limits = old(self).spec_limits();
                let ready = old(self)@.at_instant(observed_at, limits);
                if old(self)@.last_observed_at is Some && observed_at < old(
                    self)@.last_observed_at->0 {
                    &&& r == Err::<SegmentBuildOutcome, SegmentBuildError>(
                        SegmentBuildError::ClockMovedBackwards,
                    )
                    &&& final(self)@ == old(self)@
                } else {
                    ready.pushed(limits, batch, plan, observed_at, r, final(self)@)
                }
            }),
    {
        if let Some(previous) = self.last_observed_at {
            if observed_at < previous {
                return Err(SegmentBuildError::ClockMovedBackwards);
            }
        }
        let _ = self.advance_to(observed_at);
        let limits: SegmentBuildLimits = self.limits;
        if plan.total_estimated_resident_bytes > limits.maximum_estimated_resident_bytes {
            return Err(
                SegmentBuildError::BatchExceedsCapacity {
                    capacity: SegmentCapacity::ResidentMemory,
                    estimated_bytes: plan.total_estimated_resident_bytes,
                    maximum_bytes: limits.maximum_estimated_resident_bytes,
                },
            );
        }
        if plan.total_estimated_uncompressed_bytes > limits.maximum_staging_bytes {
            return Err(
                SegmentBuildError::BatchExceedsCapacity {
                    capacity: SegmentCapacity::Staging,
                    estimated_bytes: plan.total_estimated_uncompressed_bytes,
                    maximum_bytes: limits.maximum_staging_bytes,
                },
            );
        }
        let projected_resident: u64 = match self.estimated_resident_bytes.checked_add(
            plan.total_estimated_resident_bytes,
        ) {
            Some(sum) => sum,
            None => {
                return Err(SegmentBuildError::EstimatedBytesOverflow);
            },
        };
        let projected_staging: u64 = match self.estimated_staging_bytes.checked_add(
            plan.total_estimated_uncompressed_bytes,
        ) {
            Some(sum) => sum,
            None => {
                return Err(SegmentBuildError::EstimatedBytesOverflow);
            },
        };
        let pressure: Option<SegmentCapacity> = if projected_resident
            > limits.maximum_estimated_resident_bytes {
            Some(SegmentCapacity::ResidentMemory)
        } else if projected_staging > limits.maximum_staging_bytes {
            Some(SegmentCapacity::Staging)
        } else {
            None
        };
        if let Some(capacity) = pressure {
            let _ = self.seal_all_with_reason(SealingReason::CapacityPressure(capacity));
            return Ok(SegmentBuildOutcome::Deferred { batch, capacity });
        }
        if self.access_sequence.checked_add(plan.rows.len() as u64).is_none() {
            return Err(SegmentBuildError::AccessSequenceExhausted);
        }
        let metadata: BatchMetadata = batch.metadata;
        let ignored_records: u64 = batch.ignored_records;
        let dead_letters: Vec<DeadLetterEntry> = self.push_records(
            metadata,
            batch.into_records(),
            &plan,
            observed_at,
        );
        Ok(
            SegmentBuildOutcome::Accepted(
                SegmentBuildSummary { metadata, dead_letters, ignored_records },
            ),
        )
    }

    /// Adds the rows among records, and returns the rejected records.
    fn push_records(
        &mut self,
        metadata: BatchMetadata,
        records: Vec<NormalizedRecord>,
        plan: &BatchRowPlan,
        observed_at: u128,
    ) -> (r: Vec<DeadLetterEntry>)
        requires
            old(self).well_formed(),
            plan.plans(records@),
            old(self)@.last_observed_at == Some(observed_at),
            old(self)@.access_sequence + plan.rows@.len() <= u64::MAX,
            old(self)@.staging() + plan.total_estimated_uncompressed_bytes <= old(
                self).limits.maximum_staging_bytes,
            old(self)@.resident() + plan.total_estimated_resident_bytes <= old(
                self).limits.maximum_estimated_resident_bytes,
        ensures
            final(self).well_formed(),
            final(self).limits == old(self).limits,
            r@ == rejected_records(records@),
            final(self)@ == old(self)@.with_rows(
                old(self).limits,
                metadata,
                accepted_rows(records@),
                plan.rows@,
                observed_at,
            ),
    {
        let ghost all = records@;
        let ghost ready = self@;
        let limits: SegmentBuildLimits = self.limits;
        let ghost plans = plan.rows@;
        let ghost rows = accepted_rows(all);
        let mut dead_letters: Vec<DeadLetterEntry> = Vec::new();
        let mut next: usize = 0;
        let planned_rows: usize = plan.rows.len();
        proof {
            assert(all.subrange(0, 0) =~= Seq::empty());
            assert(plans.subrange(0, 0) =~= Seq::empty());
            assert(planned_uncompressed(plans.subrange(0, 0)) =~= Seq::empty());
            assert(planned_resident(plans.subrange(0, 0)) =~= Seq::empty());
        }
        for record in iter: records
            invariant
                iter.seq() == all,
                self.well_formed(),
                self.limits == limits,
                plan.plans(all),
                plans == plan.rows@,
                rows == accepted_rows(all),
                next == accepted_rows(all.subrange(0, iter.index() as int)).len(),
                dead_letters@ == rejected_records(all.subrange(0, iter.index() as int)),
                self@.last_observed_at == Some(observed_at),
                ready.access_sequence + plans.len() <= u64::MAX,
                self@.access_sequence == ready.access_sequence + next,
                ready.staging() + plan.total_estimated_uncompressed_bytes
                    <= limits.maximum_staging_bytes,
                ready.resident() + plan.total_estimated_resident_bytes
                    <= limits.maximum_estimated_resident_bytes,
                next <= plans.len(),
                planned_rows == plans.len(),
                self@.staging() == ready.staging() + total(
                    planned_uncompressed(plans.subrange(0, next as int)),
                ),
                self@.resident() == ready.resident() + total(
                    planned_resident(plans.subrange(0, next as int)),
                ),
                self@ == ready.with_rows(
                    limits,
                    metadata,
                    accepted_rows(all.subrange(0, iter.index() as int)),
                    plans.subrange(0, next as int),
                    observed_at,
                ),
        {
            let ghost at = iter.index() as int;
            let ghost through = all.subrange(0, at + 1);
            let ghost so_far = accepted_rows(all.subrange(0, at));
            proof {
                assert(through.drop_last() =~= all.subrange(0, at));
                assert(through.last() == record);
                lemma_accepted_prefix(all, at + 1);
            }
            match record {
                NormalizedRecord::Accepted(row) => {
                    let ghost added = accepted_rows(through);
                    proof {
                        assert(added =~= so_far.push(row));
                        assert(added.len() <= rows.len());
                        assert(rows[next as int] == added[next as int]);
                        lemma_planned_prefix(plans, next as int);
                    }
                    let planned: PlannedSegmentRow = plan.rows[next];
                    self.push_row(metadata, row, planned, observed_at);
                    proof {
                        let shorter = plans.subrange(0, next as int);
                        let longer = plans.subrange(0, next + 1);
                        assert(longer.drop_last() =~= shorter);
                        assert(longer.last() == planned);
                        assert(added.drop_last() =~= so_far);
                        assert(added.last() == row);
                    }
                    next = next + 1;
                },
                NormalizedRecord::DeadLetter(entry) => {
                    dead_letters.push(entry);
                },
            }
        }
        proof {
            assert(all.subrange(0, all.len() as int) =~= all);
            assert(plans.subrange(0, plans.len() as int) =~= plans);
        }
        dead_letters
    }

    /// Adds the rows of a batch, or hands the batch back unchanged if segments must drain first.
    /// What is held never exceeds the limits. Which of the outcomes comes depends on the estimated
    /// memory, and that on what the allocator gave.
    pub fn push_batch(&mut self, batch: NormalizedBatch, observed_at: u128) -> (r: Result<
        SegmentBuildOutcome,
        SegmentBuildError,
    >)
        requires
            old(self).well_formed(),
        ensures
            final(self).well_formed(),
            final(self).spec_limits() == old(self).spec_limits(),
            ({
                let limits = old(self).spec_limits();
                let ready = old(self)@.at_instant(observed_at, limits);
                if old(self)@.last_observed_at is Some && observed_at < old(
                    self)@.last_observed_at->0 {
                    &&& r == Err::<SegmentBuildOutcome, SegmentBuildError>(
                        SegmentBuildError::ClockMovedBackwards,
                    )
                    &&& final(self)@ == old(self)@
                } else {
                    exists|capacities: Seq<Seq<usize>>|
                        rows_measured(capacities, accepted_rows(batch.records@))
                            && #[trigger] ready.pushed_measured(
                            limits,
                            batch,
                            capacities,
                            observed_at,
                            r,
                            final(self)@,
                        )
                }
            }),
    {
        if let Some(previous) = self.last_observed_at {
            if observed_at < previous {
                return Err(SegmentBuildError::ClockMovedBackwards);
            }
        }
        let ghost records = batch.records@;
        let planned: Result<BatchRowPlan, SegmentBuildError> = plan_batch_rows(&batch);
        let ghost capacities = choose|capacities: Seq<Seq<usize>>|
            rows_measured(capacities, accepted_rows(records)) && #[trigger] planning(
                planned,
                records,
                capacities,
            );
        let ghost ready = self@.at_instant(observed_at, self.spec_limits());
        let ghost limits = self.spec_limits();
        match planned {
            Err(e) => {
                let _ = self.advance_to(observed_at);
                assert(ready.pushed_measured(
                    limits,
                    batch,
                    capacities,
                    observed_at,
                    Err(e),
                    self@,
                ));
                Err(e)
            },
            Ok(plan) => {
                let answer: Result<SegmentBuildOutcome, SegmentBuildError> =
                    self.push_planned_batch(batch, plan, observed_at);
                assert(ready.pushed(limits, batch, plan, observed_at, answer, self@));
                assert(ready.pushed_measured(
                    limits,
                    batch,
                    capacities,
                    observed_at,
                    answer,
                    self@,
                ));
                answer
            },
        }
    }
}

/// The rows among the first records are the first rows.
proof fn lemma_accepted_prefix(records: Seq<NormalizedRecord>, count: int)
    requires
        0 <= count <= records.len(),
    ensures
        accepted_rows(records.subrange(0, count)).len() <= accepted_rows(records).len(),
        forall|i: int|
            0 <= i < accepted_rows(records.subrange(0, count)).len() ==> #[trigger] accepted_rows(
                records,
            )[i] == accepted_rows(records.subrange(0, count))[i],
    decreases records.len() - count,
{
    if count == records.len() {
        assert(records.subrange(0, count) =~= records);
    } else {
        lemma_accepted_prefix(records, count + 1);
        let more = records.subrange(0, count + 1);
        assert(more.drop_last() =~= records.subrange(0, count));
        assert forall|i: int|
            0 <= i < accepted_rows(records.subrange(0, count)).len() implies #[trigger] accepted_rows(
            records,
        )[i] == accepted_rows(records.subrange(0, count))[i] by {
            assert(accepted_rows(more)[i] == accepted_rows(records.subrange(0, count))[i]);
        }
    }
}

/// One more planned row adds its estimates, and the totals bound them.
proof fn lemma_planned_prefix(plans: Seq<PlannedSegmentRow>, count: int)
    requires
        0 <= count < plans.len(),
    ensures
        total(planned_uncompressed(plans.subrange(0, count + 1))) == total(
            planned_uncompressed(plans.subrange(0, count)),
        ) + plans[count].estimated_uncompressed_bytes,
        total(planned_resident(plans.subrange(0, count + 1))) == total(
            planned_resident(plans.subrange(0, count)),
        ) + plans[count].estimated_resident_bytes,
        total(planned_uncompressed(plans.subrange(0, count + 1))) <= total(
            planned_uncompressed(plans),
        ),
        total(planned_resident(plans.subrange(0, count + 1))) <= total(planned_resident(plans)),
{
    let less = plans.subrange(0, count);
    let more = plans.subrange(0, count + 1);
    let rest = plans.subrange(count + 1, plans.len() as int);
    let planned = plans[count];
    lemma_total_push(planned_uncompressed(less), planned.estimated_uncompressed_bytes as nat);
    lemma_total_push(planned_resident(less), planned.estimated_resident_bytes as nat);
    assert(planned_uncompressed(more) =~= planned_uncompressed(less).push(
        planned.estimated_uncompressed_bytes as nat,
    ));
    assert(planned_resident(more) =~= planned_resident(less).push(
        planned.estimated_resident_bytes as nat,
    ));
    lemma_total_parts(planned_uncompressed(more), planned_uncompressed(rest));
    lemma_total_parts(planned_resident(more), planned_resident(rest));
    assert(planned_uncompressed(plans) =~= planned_uncompressed(more) + planned_uncompressed(
        rest,
    ));
    assert(planned_resident(plans) =~= planned_resident(more) + planned_resident(rest));
}

proof fn lemma_open_rows_remove(open: Seq<OpenView>, at: int)
    requires
        0 <= at < open.len(),
    ensures
        open_rows(open) == open_rows(open.remove(at)).add(open[at].rows.to_multiset()),
    decreases open.len(),
{
    if at == open.len() - 1 {
        assert(open.remove(at) =~= open.drop_last());
    } else {
        lemma_open_rows_remove(open.drop_last(), at);
        assert(open.remove(at).drop_last() =~= open.drop_last().remove(at));
        assert(open.remove(at).last() == open.last());
        assert(open_rows(open) =~= open_rows(open.remove(at)).add(open[at].rows.to_multiset()));
    }
}

/// Sealing a segment loses no row.
pub proof fn sealing_keeps_rows(state: BuildersView, place: int, reason: SealingReason)
    requires
        0 <= place < state.open.len(),
    ensures
        state.sealing(place, reason).held_rows() == state.held_rows(),
{
    let after = state.sealing(place, reason);
    lemma_open_rows_remove(state.open, place);
    assert(after.sealed.drop_last() =~= state.sealed);
    ordering_keeps_rows(state.open[place].rows);
    assert(after.held_rows() =~= state.held_rows());
}

/// Sealing the segments that are too old loses no row.
pub proof fn expiring_keeps_rows(state: BuildersView, from: int, at: u128, maximum: u128)
    requires
        0 <= from,
    ensures
        state.sealing_expired(from, at, maximum).held_rows() == state.held_rows(),
    decreases state.open.len() - from,
{
    if from < state.open.len() {
        if at - state.open[from].opened_at >= maximum {
            sealing_keeps_rows(state, from, SealingReason::MaximumAge);
            expiring_keeps_rows(
                state.sealing(from, SealingReason::MaximumAge),
                from,
                at,
                maximum,
            );
        } else {
            expiring_keeps_rows(state, from + 1, at, maximum);
        }
    }
}

/// Sealing every open segment loses no row.
pub proof fn flushing_keeps_rows(state: BuildersView, reason: SealingReason)
    ensures
        state.sealing_all(reason).held_rows() == state.held_rows(),
    decreases state.open.len(),
{
    if state.open.len() == 0 {
        assert(state.sealing_all(reason).sealed =~= state.sealed);
        assert(state.sealing_all(reason).open =~= state.open);
    } else {
        sealing_keeps_rows(state, 0, reason);
        let next = state.sealing(0, reason);
        flushing_keeps_rows(next, reason);
        assert(next.sealing_all(reason).sealed =~= state.sealing_all(reason).sealed);
    }
}

proof fn lemma_insert_place_bound(open: Seq<OpenView>, key: SegmentKey, from: int)
    requires
        0 <= from <= open.len(),
    ensures
        from <= insert_place(open, key, from) <= open.len(),
    decreases open.len() - from,
{
    if from < open.len() && open[from].key.before(key) {
        lemma_insert_place_bound(open, key, from + 1);
    }
}

proof fn lemma_appending_keeps_rows(
    state: BuildersView,
    key: SegmentKey,
    row: SegmentRow,
    at: u128,
)
    ensures
        state.appending(key, row, at).held_rows() == state.held_rows().insert(row),
        0 <= state.row_place(key) < state.appending(key, row, at).open.len(),
{
    broadcast use vstd::seq_lib::group_to_multiset_ensures;

    let after = state.appending(key, row, at);
    let place = state.row_place(key);
    lemma_key_place(state.open, key, 0);
    match key_place(state.open, key, 0) {
        Some(found) => {
            lemma_open_rows_remove(state.open, found);
            lemma_open_rows_remove(after.open, found);
            assert(after.open.remove(found) =~= state.open.remove(found));
            assert(after.open[found].rows.to_multiset() =~= state.open[
                found
            ].rows.to_multiset().insert(row));
        },
        None => {
            lemma_insert_place_bound(state.open, key, 0);
            lemma_open_rows_remove(after.open, place);
            assert(after.open.remove(place) =~= state.open);
            let first = seq![row];
            assert(first =~= Seq::empty().push(row));
            assert(Seq::<SegmentRow>::empty().to_multiset() =~= Multiset::empty()) by {
                assert(Seq::<SegmentRow>::empty().to_multiset().len() == 0);
            }
            assert(first.to_multiset() =~= Multiset::empty().insert(row));
        },
    }
    assert(after.held_rows() =~= state.held_rows().insert(row));
}

/// Adding a row adds that row to what is held, and loses none.
pub proof fn adding_a_row_keeps_rows(
    state: BuildersView,
    limits: SegmentBuildLimits,
    key: SegmentKey,
    row: SegmentRow,
    at: u128,
)
    requires
        limits.valid(),
    ensures
        state.with_row(limits, key, row, at).held_rows() == state.held_rows().insert(row),
{
    lemma_key_place(state.open, key, 0);
    let roomy = state.with_room_for(limits, key, row);
    if let Some(place) = key_place(state.open, key, 0) {
        sealing_keeps_rows(state, place, SealingReason::ByteTarget);
    }
    let ready = roomy.with_free_builder(limits, key);
    if roomy.open.len() > 0 {
        let place = least_recent(roomy.open, roomy.open.len() as int);
        lemma_least_recent(roomy.open, roomy.open.len() as int);
        sealing_keeps_rows(roomy, place, SealingReason::BuilderLimit);
    }
    lemma_appending_keeps_rows(ready, key, row, at);
    let grown = ready.appending(key, row, at);
    let place = ready.row_place(key);
    sealing_keeps_rows(grown, place, SealingReason::RowTarget);
    sealing_keeps_rows(grown, place, SealingReason::ByteTarget);
}

/// The rows of a batch as segments hold them.
pub open spec fn planned_rows(
    metadata: BatchMetadata,
    rows: Seq<AcceptedRow>,
    plans: Seq<PlannedSegmentRow>,
) -> Seq<SegmentRow> {
    Seq::new(rows.len(), |i: int| planned_row(metadata, rows[i], plans[i]))
}

/// Adding the rows of a batch adds each of them once to what is held, and loses none.
pub proof fn adding_a_batch_keeps_rows(
    state: BuildersView,
    limits: SegmentBuildLimits,
    metadata: BatchMetadata,
    rows: Seq<AcceptedRow>,
    plans: Seq<PlannedSegmentRow>,
    at: u128,
)
    requires
        limits.valid(),
        plans.len() == rows.len(),
    ensures
        state.with_rows(limits, metadata, rows, plans, at).held_rows() == state.held_rows().add(
            planned_rows(metadata, rows, plans).to_multiset(),
        ),
    decreases rows.len(),
{
    broadcast use vstd::seq_lib::group_to_multiset_ensures;

    let held = planned_rows(metadata, rows, plans);
    if rows.len() == 0 {
        assert(held =~= Seq::empty());
        assert(held.to_multiset() =~= Multiset::empty()) by {
            assert(held.to_multiset().len() == 0);
        }
        assert(state.held_rows().add(held.to_multiset()) =~= state.held_rows());
    } else {
        let shorter = planned_rows(metadata, rows.drop_last(), plans.drop_last());
        adding_a_batch_keeps_rows(
            state,
            limits,
            metadata,
            rows.drop_last(),
            plans.drop_last(),
            at,
        );
        let before = state.with_rows(limits, metadata, rows.drop_last(), plans.drop_last(), at);
        let row = planned_row(metadata, rows.last(), plans.last());
        adding_a_row_keeps_rows(before, limits, planned_key(metadata, plans.last()), row, at);
        assert(held =~= shorter.push(row));
        assert(state.held_rows().add(held.to_multiset()) =~= state.held_rows().add(
            shorter.to_multiset(),
        ).insert(row));
    }
}

/// The segment that gives way to a new one is one that no other open segment was touched before.
pub proof fn the_least_recent_segment_gives_way(open: Seq<OpenView>)
    requires
        open.len() > 0,
    ensures
        0 <= least_recent(open, open.len() as int) < open.len(),
        forall|i: int|
            0 <= i < open.len() ==> open[least_recent(open, open.len() as int)].touched <= (
            #[trigger] open[i]).touched,
{
    lemma_least_recent(open, open.len() as int);
}

proof fn lemma_expiring(state: BuildersView, from: int, at: u128, maximum: u128)
    requires
        0 <= from <= state.open.len(),
    ensures
        ({
            let after = state.sealing_expired(from, at, maximum);
            let kept = state.open.subrange(0, from);
            let rest = state.open.subrange(from, state.open.len() as int);
            let young = |segment: OpenView| at - segment.opened_at < maximum;
            let expired = |segment: OpenView| at - segment.opened_at >= maximum;
            let aged = rest.filter(expired);
            &&& after.open == kept + rest.filter(young)
            &&& after.sealed.len() == state.sealed.len() + aged.len()
            &&& after.sealed.subrange(0, state.sealed.len() as int) == state.sealed
            &&& forall|i: int|
                0 <= i < aged.len() ==> {
                    let sealed = #[trigger] after.sealed[state.sealed.len() + i];
                    &&& sealed.key == aged[i].key
                    &&& sealed.rows.to_multiset() == aged[i].rows.to_multiset()
                    &&& sealed.reason == SealingReason::MaximumAge
                }
            &&& after.access_sequence == state.access_sequence
            &&& after.last_observed_at == state.last_observed_at
        }),
    decreases state.open.len() - from,
{
    reveal(Seq::filter);
    let after = state.sealing_expired(from, at, maximum);
    let kept = state.open.subrange(0, from);
    let rest = state.open.subrange(from, state.open.len() as int);
    let young = |segment: OpenView| at - segment.opened_at < maximum;
    let expired = |segment: OpenView| at - segment.opened_at >= maximum;
    let aged = rest.filter(expired);
    if from == state.open.len() {
        assert(rest =~= Seq::empty());
        assert(after.open =~= kept + rest.filter(young));
        assert(after.sealed.subrange(0, state.sealed.len() as int) =~= state.sealed);
    } else {
        let first = seq![state.open[from]];
        let behind = state.open.subrange(from + 1, state.open.len() as int);
        assert(rest =~= first + behind);
        assert(first.drop_last() =~= Seq::<OpenView>::empty());
        assert(first.drop_last().filter(young) =~= Seq::<OpenView>::empty());
        assert(first.drop_last().filter(expired) =~= Seq::<OpenView>::empty());
        Seq::filter_distributes_over_add(first, behind, young);
        Seq::filter_distributes_over_add(first, behind, expired);
        if at - state.open[from].opened_at >= maximum {
            let next = state.sealing(from, SealingReason::MaximumAge);
            lemma_expiring(next, from, at, maximum);
            ordering_keeps_rows(state.open[from].rows);
            assert(next.open.subrange(0, from) =~= kept);
            assert(next.open.subrange(from, next.open.len() as int) =~= behind);
            assert(first.filter(young) =~= Seq::empty());
            assert(first.filter(expired) =~= first);
            assert(rest.filter(young) =~= behind.filter(young));
            assert(aged =~= first + behind.filter(expired));
            assert(after.sealed.subrange(0, state.sealed.len() as int) =~= state.sealed) by {
                assert(next.sealed.subrange(0, state.sealed.len() as int) =~= state.sealed);
                assert(after.sealed.subrange(0, state.sealed.len() as int)
                    =~= after.sealed.subrange(0, next.sealed.len() as int).subrange(
                    0,
                    state.sealed.len() as int,
                ));
            }
            assert forall|i: int| 0 <= i < aged.len() implies {
                let sealed = #[trigger] after.sealed[state.sealed.len() + i];
                &&& sealed.key == aged[i].key
                &&& sealed.rows.to_multiset() == aged[i].rows.to_multiset()
                &&& sealed.reason == SealingReason::MaximumAge
            } by {
                if i == 0 {
                    assert(after.sealed.subrange(0, next.sealed.len() as int)[
                        state.sealed.len() as int
                    ] == next.sealed[state.sealed.len() as int]);
                } else {
                    assert(aged[i] == behind.filter(expired)[i - 1]);
                    assert(after.sealed[state.sealed.len() + i] == after.sealed[next.sealed.len()
                        + (i - 1)]);
                }
            }
        } else {
            lemma_expiring(state, from + 1, at, maximum);
            assert(first.filter(young) =~= first);
            assert(first.filter(expired) =~= Seq::empty());
            assert(aged =~= behind.filter(expired));
            assert(state.open.subrange(0, from + 1) =~= kept + first);
            assert(after.open =~= kept + rest.filter(young));
        }
    }
}

/// At an instant, exactly the segments that have been open for the maximum time or longer are
/// sealed, for that reason and with all their rows, behind those that were sealed before. No open
/// segment that is left is that old, and those left are exactly the others, unchanged and in their
/// order.
pub proof fn exactly_the_aged_segments_expire(
    state: BuildersView,
    at: u128,
    limits: SegmentBuildLimits,
)
    ensures
        ({
            let after = state.at_instant(at, limits);
            let maximum = limits.maximum_open_nanoseconds;
            let aged = state.open.filter(|segment: OpenView| at - segment.opened_at >= maximum);
            &&& forall|i: int|
                0 <= i < after.open.len() ==> at - (#[trigger] after.open[i]).opened_at < maximum
            &&& after.open == state.open.filter(
                |segment: OpenView| at - segment.opened_at < maximum,
            )
            &&& after.sealed.len() == state.sealed.len() + aged.len()
            &&& after.sealed.subrange(0, state.sealed.len() as int) == state.sealed
            &&& forall|i: int|
                0 <= i < aged.len() ==> {
                    let sealed = #[trigger] after.sealed[state.sealed.len() + i];
                    &&& sealed.key == aged[i].key
                    &&& sealed.rows.to_multiset() == aged[i].rows.to_multiset()
                    &&& sealed.reason == SealingReason::MaximumAge
                }
            &&& after.access_sequence == state.access_sequence
            &&& after.last_observed_at == Some(at)
        }),
{
    broadcast use vstd::seq_lib::group_filter_ensures;

    let maximum = limits.maximum_open_nanoseconds;
    let observed = state.observing(at);
    lemma_expiring(observed, 0, at, maximum);
    assert(observed.open.subrange(0, observed.open.len() as int) =~= state.open);
    let young = |segment: OpenView| at - segment.opened_at < maximum;
    assert(state.at_instant(at, limits).open =~= state.open.filter(young));
}

proof fn lemma_keys_differ(open: Seq<OpenView>, i: int, j: int)
    requires
        forall|i: int, j: int|
            0 <= i < j < open.len() ==> (#[trigger] open[i]).key.before((#[trigger] open[j]).key),
        0 <= i < open.len(),
        0 <= j < open.len(),
        i != j,
    ensures
        open[i].key != open[j].key,
{
    if i < j {
        assert(open[i].key.before(open[j].key));
    } else {
        assert(open[j].key.before(open[i].key));
    }
}

/// Whether two sequences hold the same segments, apart from those with a key and, in the first, one at
/// a place.
pub open spec fn same_others(
    before: Seq<OpenView>,
    place: int,
    after: Seq<OpenView>,
    key: SegmentKey,
) -> bool {
    &&& forall|i: int|
        0 <= i < after.len() && (#[trigger] after[i]).key != key ==> before.contains(after[i])
    &&& forall|i: int|
        0 <= i < before.len() && i != place && (#[trigger] before[i]).key != key ==> after.contains(
            before[i],
        )
}

proof fn lemma_sealing_others(state: BuildersView, place: int, reason: SealingReason, key: SegmentKey)
    requires
        0 <= place < state.open.len(),
    ensures
        same_others(state.open, place, state.sealing(place, reason).open, key),
{
    let after = state.sealing(place, reason).open;
    assert forall|i: int| 0 <= i < after.len() && (#[trigger] after[i]).key != key implies
        state.open.contains(after[i]) by {
        if i < place {
            assert(state.open[i] == after[i]);
        } else {
            assert(state.open[i + 1] == after[i]);
        }
    }
    assert forall|i: int|
        0 <= i < state.open.len() && i != place && (#[trigger] state.open[i]).key != key implies
        after.contains(state.open[i]) by {
        if i < place {
            assert(after[i] == state.open[i]);
        } else {
            assert(after[i - 1] == state.open[i]);
        }
    }
}

proof fn lemma_appending_others(state: BuildersView, key: SegmentKey, row: SegmentRow, at: u128)
    ensures
        same_others(state.open, -1, state.appending(key, row, at).open, key),
{
    let after = state.appending(key, row, at).open;
    lemma_key_place(state.open, key, 0);
    match key_place(state.open, key, 0) {
        Some(place) => {
            assert forall|i: int| 0 <= i < after.len() && (#[trigger] after[i]).key != key implies
                state.open.contains(after[i]) by {
                assert(state.open[i] == after[i]);
            }
            assert forall|i: int|
                0 <= i < state.open.len() && i != -1 && (#[trigger] state.open[i]).key != key implies
                after.contains(state.open[i]) by {
                assert(after[i] == state.open[i]);
            }
        },
        None => {
            lemma_insert_place_bound(state.open, key, 0);
            let place = insert_place(state.open, key, 0);
            assert forall|i: int| 0 <= i < after.len() && (#[trigger] after[i]).key != key implies
                state.open.contains(after[i]) by {
                if i < place {
                    assert(state.open[i] == after[i]);
                } else if i > place {
                    assert(state.open[i - 1] == after[i]);
                }
            }
            assert forall|i: int|
                0 <= i < state.open.len() && i != -1 && (#[trigger] state.open[i]).key != key implies
                after.contains(state.open[i]) by {
                if i < place {
                    assert(after[i] == state.open[i]);
                } else {
                    assert(after[i + 1] == state.open[i]);
                }
            }
        },
    }
}

proof fn lemma_others_compose(
    first: Seq<OpenView>,
    place: int,
    second: Seq<OpenView>,
    middle: int,
    third: Seq<OpenView>,
    key: SegmentKey,
)
    requires
        same_others(first, place, second, key),
        same_others(second, middle, third, key),
        0 <= middle < second.len() ==> second[middle].key == key,
    ensures
        same_others(first, place, third, key),
{
    assert forall|i: int| 0 <= i < third.len() && (#[trigger] third[i]).key != key implies
        first.contains(third[i]) by {
        let j = choose|j: int| 0 <= j < second.len() && second[j] == third[i];
        assert(second[j].key != key);
    }
    assert forall|i: int|
        0 <= i < first.len() && i != place && (#[trigger] first[i]).key != key implies
        third.contains(first[i]) by {
        let j = choose|j: int| 0 <= j < second.len() && second[j] == first[i];
        assert(second[j].key != key);
        assert(j != middle);
    }
}

/// Whether a row joins an open segment: its bytes do not take the segment beyond the target.
pub open spec fn joins(earlier: Option<OpenView>, row: SegmentRow, limits: SegmentBuildLimits) -> bool {
    earlier matches Some(segment) && segment.uncompressed + row.estimated_uncompressed_bytes
        <= limits.target_estimated_bytes
}

/// The rows of the segment that takes a row.
pub open spec fn rows_with(
    earlier: Option<OpenView>,
    row: SegmentRow,
    limits: SegmentBuildLimits,
) -> Seq<SegmentRow> {
    if joins(earlier, row, limits) {
        earlier->0.rows.push(row)
    } else {
        seq![row]
    }
}

/// The stored bytes of the segment that takes a row.
pub open spec fn bytes_with(
    earlier: Option<OpenView>,
    row: SegmentRow,
    limits: SegmentBuildLimits,
) -> int {
    if joins(earlier, row, limits) {
        earlier->0.uncompressed + row.estimated_uncompressed_bytes
    } else {
        row.estimated_uncompressed_bytes as int
    }
}

/// A row goes to the open segment with its key, if its bytes do not take that segment beyond the
/// target. Otherwise that segment is sealed for it, and the row opens another. A row whose key has no
/// segment opens one; if no more may be open, one that no other was touched before is sealed for it.
/// The segment that took the row is sealed exactly if it reached the row target, or else the byte
/// target. Every other segment stays as it is.
#[verifier::rlimit(40)]
#[verifier::spinoff_prover]
pub proof fn a_row_goes_to_the_segment_of_its_key(
    state: BuildersView,
    limits: SegmentBuildLimits,
    key: SegmentKey,
    row: SegmentRow,
    at: u128,
    earlier: Option<OpenView>,
)
    requires
        state.well_formed(limits),
        state.access_sequence < u64::MAX,
        match earlier {
            Some(segment) => state.open.contains(segment) && segment.key == key,
            None => forall|i: int| 0 <= i < state.open.len() ==> (#[trigger] state.open[i]).key != key,
        },
    ensures
        ({
            let after = state.with_row(limits, key, row, at);
            let rows = rows_with(earlier, row, limits);
            let bytes = bytes_with(earlier, row, limits);
            let full = rows.len() >= limits.target_rows || bytes >= limits.target_estimated_bytes;
            let crowded = earlier is None && state.open.len() == limits.maximum_open_builders;
            let outgrown = earlier is Some && !joins(earlier, row, limits);
            let sealed = state.sealed.len() as int;
            let gone: int = if crowded || outgrown {
                1
            } else {
                0
            };
            &&& after.sealed.len() == sealed + gone + if full {
                1int
            } else {
                0int
            }
            &&& after.sealed.subrange(0, sealed) == state.sealed
            &&& outgrown ==> {
                &&& after.sealed[sealed].key == key
                &&& after.sealed[sealed].rows.to_multiset() == earlier->0.rows.to_multiset()
                &&& after.sealed[sealed].reason == SealingReason::ByteTarget
            }
            &&& crowded ==> exists|i: int|
                {
                    &&& 0 <= i < state.open.len()
                    &&& after.sealed[sealed].key == (#[trigger] state.open[i]).key
                    &&& after.sealed[sealed].rows.to_multiset()
                        == state.open[i].rows.to_multiset()
                    &&& after.sealed[sealed].reason == SealingReason::BuilderLimit
                    &&& forall|j: int|
                        0 <= j < state.open.len() ==> state.open[i].touched <= (
                        #[trigger] state.open[j]).touched
                    &&& same_others(state.open, i, after.open, key)
                }
            &&& !crowded ==> same_others(state.open, -1, after.open, key)
            &&& full ==> {
                &&& after.sealed.last().key == key
                &&& after.sealed.last().rows.to_multiset() == rows.to_multiset()
                &&& after.sealed.last().reason == if rows.len() >= limits.target_rows {
                    SealingReason::RowTarget
                } else {
                    SealingReason::ByteTarget
                }
                &&& forall|i: int|
                    0 <= i < after.open.len() ==> (#[trigger] after.open[i]).key != key
            }
            &&& !full ==> exists|i: int|
                {
                    &&& 0 <= i < after.open.len()
                    &&& (#[trigger] after.open[i]).key == key
                    &&& after.open[i].rows == rows
                    &&& after.open[i].uncompressed == bytes
                    &&& after.open[i].touched == state.access_sequence + 1
                    &&& after.open[i].opened_at == if joins(earlier, row, limits) {
                        earlier->0.opened_at
                    } else {
                        at
                    }
                }
        }),
{
    let after = state.with_row(limits, key, row, at);
    let ready = state.with_room_for(limits, key, row).with_free_builder(limits, key);
    let victim = lemma_made_ready(state, limits, key, row, earlier);
    lemma_taken_in(ready, limits, key, row, at, if joins(earlier, row, limits) {
        earlier
    } else {
        None
    });
    let sealed = state.sealed.len() as int;
    let crowded = earlier is None && state.open.len() == limits.maximum_open_builders;
    let left = if crowded {
        victim
    } else {
        -1
    };
    lemma_others_compose(state.open, left, ready.open, -1, after.open, key);
    assert(after.sealed.subrange(0, sealed) =~= ready.sealed.subrange(0, sealed));
    assert(after.sealed.subrange(0, ready.sealed.len() as int) == ready.sealed);
    if ready.sealed.len() > sealed {
        assert(after.sealed[sealed] == after.sealed.subrange(0, ready.sealed.len() as int)[sealed]);
    }
}

/// What is sealed to make room for a row.
proof fn lemma_made_ready(
    state: BuildersView,
    limits: SegmentBuildLimits,
    key: SegmentKey,
    row: SegmentRow,
    earlier: Option<OpenView>,
) -> (victim: int)
    requires
        state.well_formed(limits),
        match earlier {
            Some(segment) => state.open.contains(segment) && segment.key == key,
            None => forall|i: int| 0 <= i < state.open.len() ==> (#[trigger] state.open[i]).key != key,
        },
    ensures
        ({
            let ready = state.with_room_for(limits, key, row).with_free_builder(limits, key);
            let crowded = earlier is None && state.open.len() == limits.maximum_open_builders;
            let outgrown = earlier is Some && !joins(earlier, row, limits);
            let sealed = state.sealed.len() as int;
            &&& ready.access_sequence == state.access_sequence
            &&& ready.sealed.len() == sealed + if crowded || outgrown {
                1int
            } else {
                0int
            }
            &&& ready.sealed.subrange(0, sealed) == state.sealed
            &&& outgrown ==> {
                &&& ready.sealed[sealed].key == key
                &&& ready.sealed[sealed].rows.to_multiset() == earlier->0.rows.to_multiset()
                &&& ready.sealed[sealed].reason == SealingReason::ByteTarget
            }
            &&& crowded ==> {
                &&& 0 <= victim < state.open.len()
                &&& ready.sealed[sealed].key == state.open[victim].key
                &&& ready.sealed[sealed].rows.to_multiset()
                    == state.open[victim].rows.to_multiset()
                &&& ready.sealed[sealed].reason == SealingReason::BuilderLimit
                &&& forall|j: int|
                    0 <= j < state.open.len() ==> state.open[victim].touched <= (
                    #[trigger] state.open[j]).touched
                &&& same_others(state.open, victim, ready.open, key)
            }
            &&& !crowded ==> same_others(state.open, -1, ready.open, key)
            &&& joins(earlier, row, limits) ==> ready == state
            &&& !joins(earlier, row, limits) ==> forall|j: int|
                0 <= j < ready.open.len() ==> (#[trigger] ready.open[j]).key != key
        }),
{
    let sealed = state.sealed.len() as int;
    let roomy = state.with_room_for(limits, key, row);
    let ready = roomy.with_free_builder(limits, key);
    lemma_key_place(state.open, key, 0);
    lemma_same_state(state.open, key);
    match earlier {
        Some(segment) => {
            let i = choose|i: int| 0 <= i < state.open.len() && state.open[i] == segment;
            assert(state.open[i].key == key);
            let found = key_place(state.open, key, 0)->0;
            if i != found {
                lemma_keys_differ(state.open, i, found);
            }
            if !joins(earlier, row, limits) {
                lemma_sealing_others(state, found, SealingReason::ByteTarget, key);
                lemma_others_compose(state.open, -1, state.open, found, roomy.open, key);
                ordering_keeps_rows(segment.rows);
                assert forall|j: int| 0 <= j < roomy.open.len() implies (
                #[trigger] roomy.open[j]).key != key by {
                    if j < found {
                        lemma_keys_differ(state.open, j, found);
                    } else {
                        lemma_keys_differ(state.open, j + 1, found);
                    }
                }
                lemma_key_place(roomy.open, key, 0);
                assert(ready == roomy);
            }
            assert(ready.sealed.subrange(0, sealed) =~= state.sealed);
            -1
        },
        None => {
            if state.open.len() == limits.maximum_open_builders {
                lemma_least_recent(state.open, state.open.len() as int);
                let victim = least_recent(state.open, state.open.len() as int);
                lemma_sealing_others(state, victim, SealingReason::BuilderLimit, key);
                ordering_keeps_rows(state.open[victim].rows);
                assert forall|j: int| 0 <= j < ready.open.len() implies (
                #[trigger] ready.open[j]).key != key by {
                    if j < victim {
                        assert(ready.open[j] == state.open[j]);
                    } else {
                        assert(ready.open[j] == state.open[j + 1]);
                    }
                }
                assert(ready.sealed.subrange(0, sealed) =~= state.sealed);
                victim
            } else {
                assert(ready == state);
                assert(ready.sealed.subrange(0, sealed) =~= state.sealed);
                -1
            }
        },
    }
}

/// What becomes of the segment that takes a row.
proof fn lemma_taken_in(
    ready: BuildersView,
    limits: SegmentBuildLimits,
    key: SegmentKey,
    row: SegmentRow,
    at: u128,
    earlier: Option<OpenView>,
)
    requires
        ready.access_sequence < u64::MAX,
        match earlier {
            Some(segment) => {
                &&& ready.well_formed(limits)
                &&& ready.open.contains(segment)
                &&& segment.key == key
                &&& joins(earlier, row, limits)
            },
            None => forall|i: int| 0 <= i < ready.open.len() ==> (#[trigger] ready.open[i]).key != key,
        },
    ensures
        ({
            let after = ready.appending(key, row, at).sealing_full(limits, ready.row_place(key));
            let rows = rows_with(earlier, row, limits);
            let bytes = bytes_with(earlier, row, limits);
            let full = rows.len() >= limits.target_rows || bytes >= limits.target_estimated_bytes;
            &&& after.sealed.len() == ready.sealed.len() + if full {
                1int
            } else {
                0int
            }
            &&& after.sealed.subrange(0, ready.sealed.len() as int) == ready.sealed
            &&& same_others(ready.open, -1, after.open, key)
            &&& full ==> {
                &&& after.sealed.last().key == key
                &&& after.sealed.last().rows.to_multiset() == rows.to_multiset()
                &&& after.sealed.last().reason == if rows.len() >= limits.target_rows {
                    SealingReason::RowTarget
                } else {
                    SealingReason::ByteTarget
                }
                &&& forall|i: int|
                    0 <= i < after.open.len() ==> (#[trigger] after.open[i]).key != key
            }
            &&& !full ==> exists|i: int|
                {
                    &&& 0 <= i < after.open.len()
                    &&& (#[trigger] after.open[i]).key == key
                    &&& after.open[i].rows == rows
                    &&& after.open[i].uncompressed == bytes
                    &&& after.open[i].touched == ready.access_sequence + 1
                    &&& after.open[i].opened_at == if earlier is Some {
                        earlier->0.opened_at
                    } else {
                        at
                    }
                }
        }),
{
    let rows = rows_with(earlier, row, limits);
    let bytes = bytes_with(earlier, row, limits);
    let grown = ready.appending(key, row, at);
    let place = ready.row_place(key);
    let after = grown.sealing_full(limits, place);
    lemma_key_place(ready.open, key, 0);
    lemma_insert_place_bound(ready.open, key, 0);
    lemma_appending_others(ready, key, row, at);
    if let Some(segment) = earlier {
        let i = choose|i: int| 0 <= i < ready.open.len() && ready.open[i] == segment;
        assert(ready.open[i].key == key);
        if i != place {
            lemma_keys_differ(ready.open, i, place);
        }
    }
    assert(0 <= place < grown.open.len());
    assert(grown.open[place].key == key);
    assert(grown.open[place].rows =~= rows);
    assert(grown.open[place].uncompressed == bytes);
    assert forall|j: int| 0 <= j < grown.open.len() && j != place implies (
    #[trigger] grown.open[j]).key != key by {
        if earlier is Some {
            lemma_keys_differ(ready.open, j, place);
            assert(grown.open[j] == ready.open[j]);
        } else if j < place {
            assert(grown.open[j] == ready.open[j]);
        } else {
            assert(grown.open[j] == ready.open[j - 1]);
        }
    }
    if rows.len() >= limits.target_rows || bytes >= limits.target_estimated_bytes {
        let reason = if rows.len() >= limits.target_rows {
            SealingReason::RowTarget
        } else {
            SealingReason::ByteTarget
        };
        lemma_sealing_others(grown, place, reason, key);
        lemma_others_compose(ready.open, -1, grown.open, place, after.open, key);
        ordering_keeps_rows(rows);
        assert forall|j: int| 0 <= j < after.open.len() implies (#[trigger] after.open[j]).key
            != key by {
            if j < place {
                assert(after.open[j] == grown.open[j]);
            } else {
                assert(after.open[j] == grown.open[j + 1]);
            }
        }
    } else {
        assert(after == grown);
        assert(after.open[place].key == key);
    }
    assert(after.sealed.subrange(0, ready.sealed.len() as int) =~= ready.sealed);
}

proof fn lemma_same_state(open: Seq<OpenView>, key: SegmentKey)
    ensures
        same_others(open, -1, open, key),
{
    assert forall|i: int| 0 <= i < open.len() implies open.contains(#[trigger] open[i]) by {}
}

/// A batch is accepted exactly if what is held and what it adds stay within both limits. One that no
/// limit could ever hold is refused, and nothing changes. One that only what is held stands in the way
/// of is handed back, and every open segment is sealed, in order and with all its rows, for the limit
/// that it met.
pub proof fn batches_are_taken_only_within_the_limits(
    state: BuildersView,
    limits: SegmentBuildLimits,
    batch: NormalizedBatch,
    plan: BatchRowPlan,
    at: u128,
    answer: Result<SegmentBuildOutcome, SegmentBuildError>,
    after: BuildersView,
)
    requires
        state.pushed(limits, batch, plan, at, answer, after),
    ensures
        ({
            let memory = plan.total_estimated_resident_bytes;
            let bytes = plan.total_estimated_uncompressed_bytes;
            let fits_memory = state.resident() + memory <= limits.maximum_estimated_resident_bytes;
            let fits_staging = state.staging() + bytes <= limits.maximum_staging_bytes;
            let numbered = state.access_sequence + plan.rows@.len() <= u64::MAX;
            &&& match answer {
                Ok(SegmentBuildOutcome::Accepted(summary)) => {
                    &&& fits_memory && fits_staging && numbered
                    &&& summary.metadata == batch.metadata
                    &&& summary.ignored_records == batch.ignored_records
                },
                Ok(SegmentBuildOutcome::Deferred { batch: returned, capacity }) => {
                    &&& returned == batch
                    &&& memory <= limits.maximum_estimated_resident_bytes
                    &&& bytes <= limits.maximum_staging_bytes
                    &&& match capacity {
                        SegmentCapacity::ResidentMemory => !fits_memory,
                        SegmentCapacity::Staging => fits_memory && !fits_staging,
                    }
                    &&& after.open.len() == 0
                    &&& after.sealed.len() == state.sealed.len() + state.open.len()
                    &&& after.sealed.subrange(0, state.sealed.len() as int) == state.sealed
                    &&& forall|i: int|
                        0 <= i < state.open.len() ==> {
                            let sealed = #[trigger] after.sealed[state.sealed.len() + i];
                            &&& sealed.key == state.open[i].key
                            &&& sealed.rows.to_multiset() == state.open[i].rows.to_multiset()
                            &&& sealed.reason == SealingReason::CapacityPressure(capacity)
                        }
                },
                Err(SegmentBuildError::BatchExceedsCapacity {
                    capacity,
                    estimated_bytes,
                    maximum_bytes,
                }) => {
                    &&& after == state
                    &&& estimated_bytes > maximum_bytes
                    &&& match capacity {
                        SegmentCapacity::ResidentMemory => estimated_bytes == memory
                            && maximum_bytes == limits.maximum_estimated_resident_bytes,
                        SegmentCapacity::Staging => estimated_bytes == bytes && maximum_bytes
                            == limits.maximum_staging_bytes && memory
                            <= limits.maximum_estimated_resident_bytes,
                    }
                },
                Err(SegmentBuildError::EstimatedBytesOverflow) => after == state && (
                state.resident() + memory > u64::MAX || state.staging() + bytes > u64::MAX),
                Err(SegmentBuildError::AccessSequenceExhausted) => after == state && fits_memory
                    && fits_staging && !numbered,
                Err(SegmentBuildError::ClockMovedBackwards) => false,
            }
            &&& fits_memory && fits_staging && numbered ==> answer matches Ok(
                SegmentBuildOutcome::Accepted(_),
            )
        }),
{
    if let Ok(SegmentBuildOutcome::Deferred { .. }) = answer {
        assert(after.sealed.subrange(0, state.sealed.len() as int) =~= state.sealed);
        assert forall|i: int| 0 <= i < state.open.len() implies {
            let sealed = #[trigger] after.sealed[state.sealed.len() + i];
            sealed.rows.to_multiset() == state.open[i].rows.to_multiset()
        } by {
            ordering_keeps_rows(state.open[i].rows);
        }
    }
}

/// Sealing every open segment leaves none open. Each is sealed with its key, all its rows and this
/// reason, in their order, behind those that were sealed before.
pub proof fn flushing_seals_every_segment(state: BuildersView, reason: SealingReason)
    ensures
        ({
            let after = state.sealing_all(reason);
            &&& after.open.len() == 0
            &&& after.sealed.len() == state.sealed.len() + state.open.len()
            &&& after.sealed.subrange(0, state.sealed.len() as int) == state.sealed
            &&& forall|i: int|
                0 <= i < state.open.len() ==> {
                    let sealed = #[trigger] after.sealed[state.sealed.len() + i];
                    &&& sealed.key == state.open[i].key
                    &&& sealed.rows.to_multiset() == state.open[i].rows.to_multiset()
                    &&& sealed.reason == reason
                }
            &&& after.access_sequence == state.access_sequence
            &&& after.last_observed_at == state.last_observed_at
        }),
{
    let after = state.sealing_all(reason);
    assert(after.sealed.subrange(0, state.sealed.len() as int) =~= state.sealed);
    assert forall|i: int| 0 <= i < state.open.len() implies {
        let sealed = #[trigger] after.sealed[state.sealed.len() + i];
        &&& sealed.key == state.open[i].key
        &&& sealed.rows.to_multiset() == state.open[i].rows.to_multiset()
        &&& sealed.reason == reason
    } by {
        ordering_keeps_rows(state.open[i].rows);
    }
}

/// Each record is a row or was rejected, and the rows and the rejected records stand in the order of
/// the records.
pub proof fn records_are_rows_or_rejected(
    left: Seq<NormalizedRecord>,
    right: Seq<NormalizedRecord>,
    record: NormalizedRecord,
)
    ensures
        accepted_rows(left + right) == accepted_rows(left) + accepted_rows(right),
        rejected_records(left + right) == rejected_records(left) + rejected_records(right),
        accepted_rows(left).len() + rejected_records(left).len() == left.len(),
        match record {
            NormalizedRecord::Accepted(row) => accepted_rows(seq![record]) == seq![row],
            NormalizedRecord::DeadLetter(entry) => rejected_records(seq![record]) == seq![entry],
        },
    decreases left.len() + right.len(),
{
    let one = seq![record];
    assert(one.drop_last() =~= Seq::empty());
    assert(accepted_rows(one.drop_last()) =~= Seq::empty());
    assert(rejected_records(one.drop_last()) =~= Seq::empty());
    assert(one.last() == record);
    if right.len() == 0 {
        assert(left + right =~= left);
        if left.len() > 0 {
            records_are_rows_or_rejected(left.drop_last(), right, record);
        }
    } else {
        records_are_rows_or_rejected(left, right.drop_last(), record);
        assert((left + right).drop_last() =~= left + right.drop_last());
        assert((left + right).last() == right.last());
        assert(accepted_rows(left + right) =~= accepted_rows(left) + accepted_rows(right));
        assert(rejected_records(left + right) =~= rejected_records(left) + rejected_records(right));
    }
}

} // verus!
