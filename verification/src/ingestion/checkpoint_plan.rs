//! How far the spool's checkpoint may advance, given what has been published.

use std::collections::HashMap;
use std::collections::HashSet;

use vstd::prelude::*;

use crate::identity::BatchId;
use crate::ingestion::model::{SpoolBatchRange, SpoolCheckpoint};
use crate::ingestion::output_recovery::{
    coverage_views, strictly_increasing, BatchOutputRequirements, BatchPositionCoverage,
    CheckpointPlan, CoverageView, OutputRecoveryModelError, PublishedOutput,
};

verus! {

/// One published occurrence.
#[derive(Clone, Copy, Debug, PartialEq, Eq, Structural)]
pub struct Occurrence {
    pub batch_id: BatchId,
    pub position: u64,
    pub spool_range: SpoolBatchRange,
}

/// The occurrences of one item of a coverage.
pub open spec fn item_occurrences(item: CoverageView) -> Seq<Occurrence> {
    Seq::new(
        item.positions.len(),
        |i: int|
            Occurrence {
                batch_id: item.batch_id,
                position: item.positions[i],
                spool_range: item.spool_range,
            },
    )
}

/// The occurrences of a coverage.
pub open spec fn coverage_occurrences(coverage: Seq<CoverageView>) -> Seq<Occurrence>
    decreases coverage.len(),
{
    if coverage.len() == 0 {
        Seq::empty()
    } else {
        coverage_occurrences(coverage.drop_last()) + item_occurrences(coverage.last())
    }
}

/// The occurrences of all published outputs, in order.
pub open spec fn published_occurrences(outputs: Seq<PublishedOutput>) -> Seq<Occurrence>
    decreases outputs.len(),
{
    if outputs.len() == 0 {
        Seq::empty()
    } else {
        published_occurrences(outputs.drop_last()) + coverage_occurrences(
            outputs.last().record@.coverage,
        )
    }
}

/// The requirements of a list of batches.
pub open spec fn requirement_views(batches: Seq<BatchOutputRequirements>) -> Seq<CoverageView> {
    Seq::new(batches.len(), |i: int| batches[i]@)
}

/// Whether no batch is listed twice.
pub open spec fn distinct_batches(batches: Seq<CoverageView>) -> bool {
    forall|i: int, j: int|
        #![trigger batches[i], batches[j]]
        0 <= i < j < batches.len() ==> batches[i].batch_id != batches[j].batch_id
}

/// Whether a batch is listed.
pub open spec fn known_batch(batches: Seq<CoverageView>, batch_id: BatchId) -> bool {
    exists|i: int| 0 <= i < batches.len() && (#[trigger] batches[i]).batch_id == batch_id
}

/// Whether a listed batch requires this occurrence.
pub open spec fn required(batches: Seq<CoverageView>, batch_id: BatchId, position: u64) -> bool {
    exists|i: int|
        0 <= i < batches.len() && (#[trigger] batches[i]).batch_id == batch_id
            && batches[i].positions.contains(position)
}

/// Whether a listed batch lies in this range.
pub open spec fn placed(
    batches: Seq<CoverageView>,
    batch_id: BatchId,
    spool_range: SpoolBatchRange,
) -> bool {
    exists|i: int|
        0 <= i < batches.len() && (#[trigger] batches[i]).batch_id == batch_id
            && batches[i].spool_range == spool_range
}

/// Whether an occurrence has been published.
pub open spec fn published(
    occurrences: Seq<Occurrence>,
    batch_id: BatchId,
    position: u64,
) -> bool {
    exists|i: int|
        0 <= i < occurrences.len() && (#[trigger] occurrences[i]).batch_id == batch_id
            && occurrences[i].position == position
}

/// What is wrong with a published occurrence behind others.
pub open spec fn occurrence_fault(
    batches: Seq<CoverageView>,
    earlier: Seq<Occurrence>,
    occurrence: Occurrence,
) -> Option<OutputRecoveryModelError> {
    if !known_batch(batches, occurrence.batch_id) {
        None
    } else if !required(batches, occurrence.batch_id, occurrence.position) {
        Some(OutputRecoveryModelError::PublishedCoverageIsUnknown)
    } else if !placed(batches, occurrence.batch_id, occurrence.spool_range) {
        Some(OutputRecoveryModelError::PublishedCoverageRangeMismatch)
    } else if published(earlier, occurrence.batch_id, occurrence.position) {
        Some(OutputRecoveryModelError::PublishedCoverageOverlaps)
    } else {
        None
    }
}

/// What is wrong with the first faulty published occurrence.
pub open spec fn published_fault(
    batches: Seq<CoverageView>,
    occurrences: Seq<Occurrence>,
) -> Option<OutputRecoveryModelError>
    decreases occurrences.len(),
{
    if occurrences.len() == 0 {
        None
    } else {
        match published_fault(batches, occurrences.drop_last()) {
            Some(fault) => Some(fault),
            None => occurrence_fault(batches, occurrences.drop_last(), occurrences.last()),
        }
    }
}

/// Whether every occurrence that a batch requires has been published.
pub open spec fn batch_complete(batch: CoverageView, occurrences: Seq<Occurrence>) -> bool {
    forall|i: int|
        #![trigger batch.positions[i]]
        0 <= i < batch.positions.len() ==> published(
            occurrences,
            batch.batch_id,
            batch.positions[i],
        )
}

/// The checkpoint that is reached from `target` by passing complete batches, beginning with the
/// batch at `index`.
pub open spec fn reachable_checkpoint(
    batches: Seq<CoverageView>,
    occurrences: Seq<Occurrence>,
    index: int,
    target: SpoolCheckpoint,
) -> Result<SpoolCheckpoint, OutputRecoveryModelError>
    decreases batches.len() - index,
{
    if index < 0 || index >= batches.len() {
        Ok(target)
    } else if batches[index].spool_range.spec_start() != target {
        Err(OutputRecoveryModelError::BatchRequirementsAreNotContiguous)
    } else if !batch_complete(batches[index], occurrences) {
        Ok(target)
    } else {
        reachable_checkpoint(
            batches,
            occurrences,
            index + 1,
            batches[index].spool_range.spec_end(),
        )
    }
}

/// The plan for these requirements and occurrences.
pub open spec fn checkpoint_plan(
    current: SpoolCheckpoint,
    batches: Seq<CoverageView>,
    occurrences: Seq<Occurrence>,
) -> Result<Option<CheckpointPlan>, OutputRecoveryModelError> {
    if !distinct_batches(batches) {
        Err(OutputRecoveryModelError::DuplicateBatchRequirements)
    } else {
        match published_fault(batches, occurrences) {
            Some(fault) => Err(fault),
            None => match reachable_checkpoint(batches, occurrences, 0, current) {
                Ok(target) => Ok(
                    if target != current {
                        Some(CheckpointPlan { current, target })
                    } else {
                        None
                    },
                ),
                Err(e) => Err(e),
            },
        }
    }
}

/// Lists the published occurrences.
fn collect_occurrences(outputs: &[PublishedOutput]) -> (r: Vec<Occurrence>)
    ensures
        r@ == published_occurrences(outputs@),
{
    let mut occurrences: Vec<Occurrence> = Vec::new();
    let mut index: usize = 0;
    assert(outputs@.subrange(0, 0) =~= Seq::empty());
    while index < outputs.len()
        invariant
            index <= outputs@.len(),
            occurrences@ == published_occurrences(outputs@.subrange(0, index as int)),
        decreases outputs@.len() - index,
    {
        let coverage: &Vec<BatchPositionCoverage> = &outputs[index].record.coverage;
        let ghost before = occurrences@;
        let ghost views = coverage_views(coverage@);
        let mut item: usize = 0;
        assert(views.subrange(0, 0) =~= Seq::empty());
        while item < coverage.len()
            invariant
                item <= coverage@.len(),
                views == coverage_views(coverage@),
                occurrences@ == before + coverage_occurrences(views.subrange(0, item as int)),
            decreases coverage@.len() - item,
        {
            let ghost through = views.subrange(0, item + 1);
            let ghost earlier = occurrences@;
            let positions: &[u64] = coverage[item].positions();
            let mut next: usize = 0;
            while next < positions.len()
                invariant
                    next <= positions@.len(),
                    item < coverage@.len(),
                    positions@ == coverage@[item as int]@.positions,
                    occurrences@ == earlier + item_occurrences(coverage@[item as int]@).subrange(
                        0,
                        next as int,
                    ),
                decreases positions@.len() - next,
            {
                occurrences.push(
                    Occurrence {
                        batch_id: coverage[item].batch_id(),
                        position: positions[next],
                        spool_range: coverage[item].spool_range(),
                    },
                );
                next = next + 1;
                assert(occurrences@ =~= earlier + item_occurrences(
                    coverage@[item as int]@,
                ).subrange(0, next as int));
            }
            proof {
                let all = item_occurrences(coverage@[item as int]@);
                assert(all.subrange(0, next as int) =~= all);
                assert(through.drop_last() =~= views.subrange(0, item as int));
                assert(through.last() == coverage@[item as int]@);
                assert(earlier + all =~= before + coverage_occurrences(through));
            }
            item = item + 1;
        }
        proof {
            let through = outputs@.subrange(0, index + 1);
            assert(views.subrange(0, item as int) =~= views);
            assert(through.drop_last() =~= outputs@.subrange(0, index as int));
        }
        index = index + 1;
    }
    assert(outputs@.subrange(0, index as int) =~= outputs@);
    occurrences
}

/// Finds a position in an increasing list.
fn contains_position(positions: &Vec<u64>, position: u64) -> (r: bool)
    requires
        strictly_increasing(positions@),
    ensures
        r == positions@.contains(position),
{
    let mut low: usize = 0;
    let mut high: usize = positions.len();
    while low < high
        invariant
            low <= high <= positions@.len(),
            strictly_increasing(positions@),
            forall|i: int| 0 <= i < low ==> positions@[i] < position,
            forall|i: int| high <= i < positions@.len() ==> positions@[i] > position,
        decreases high - low,
    {
        let middle: usize = low + (high - low) / 2;
        let candidate: u64 = positions[middle];
        if candidate == position {
            assert(positions@[middle as int] == position);
            return true;
        }
        if candidate < position {
            low = middle + 1;
        } else {
            high = middle;
        }
    }
    false
}

/// The key of an occurrence of the batch at `index`.
spec fn occurrence_key(index: int, position: u64) -> int {
    index * 0x1_0000_0000_0000_0000 + position
}

/// A fault of the first occurrences is the fault of all of them.
proof fn lemma_published_fault_persists(
    batches: Seq<CoverageView>,
    occurrences: Seq<Occurrence>,
    count: int,
)
    requires
        0 <= count <= occurrences.len(),
        published_fault(batches, occurrences.subrange(0, count)) is Some,
    ensures
        published_fault(batches, occurrences) == published_fault(
            batches,
            occurrences.subrange(0, count),
        ),
    decreases occurrences.len(),
{
    if count < occurrences.len() {
        assert(occurrences.drop_last().subrange(0, count) =~= occurrences.subrange(0, count));
        lemma_published_fault_persists(batches, occurrences.drop_last(), count);
    } else {
        assert(occurrences.subrange(0, count) =~= occurrences);
    }
}

/// Whether `index_of` says where each of the first batches stands.
spec fn indexes_batches(
    index_of: Map<u128, usize>,
    batches: Seq<CoverageView>,
    count: int,
) -> bool {
    &&& forall|id: BatchId| #[trigger]
        index_of.contains_key(id.value) ==> index_of[id.value] < count
            && batches[index_of[id.value] as int].batch_id == id
    &&& forall|i: int|
        0 <= i < count ==> index_of.contains_key((#[trigger] batches[i]).batch_id.value)
}

/// Whether `covered` holds the keys of the published occurrences of listed batches.
spec fn indexes_published(
    covered: Set<u128>,
    batches: Seq<CoverageView>,
    occurrences: Seq<Occurrence>,
) -> bool {
    forall|i: int, position: u64|
        0 <= i < batches.len() ==> (covered.contains(#[trigger] occurrence_key(i, position) as u128)
            <==> published(occurrences, batches[i].batch_id, position))
}

proof fn lemma_occurrence_keys_differ(i: int, p: u64, j: int, q: u64)
    requires
        0 <= i <= u64::MAX,
        0 <= j <= u64::MAX,
        occurrence_key(i, p) as u128 == occurrence_key(j, q) as u128,
    ensures
        i == j && p == q,
{
}

/// Plans how far the checkpoint may advance. The checkpoint passes a batch only when every
/// occurrence of the batch has been published.
pub fn plan_checkpoint(
    current: SpoolCheckpoint,
    batches: &[BatchOutputRequirements],
    outputs: &[PublishedOutput],
) -> (r: Result<Option<CheckpointPlan>, OutputRecoveryModelError>)
    ensures
        r == checkpoint_plan(
            current,
            requirement_views(batches@),
            published_occurrences(outputs@),
        ),
{
    broadcast use vstd::std_specs::hash::group_hash_axioms;

    let ghost views = requirement_views(batches@);
    let total: usize = batches.len();
    let mut index_of: HashMap<u128, usize> = HashMap::new();
    let mut index: usize = 0;
    while index < batches.len()
        invariant
            index <= total == batches@.len(),
            views == requirement_views(batches@),
            indexes_batches(index_of@, views, index as int),
            forall|i: int, j: int|
                #![trigger views[i], views[j]]
                0 <= i < j < index ==> views[i].batch_id != views[j].batch_id,
        decreases batches@.len() - index,
    {
        let ghost before = index_of@;
        let batch_id: BatchId = batches[index].batch_id;
        assert(views[index as int].batch_id == batch_id);
        let repeated: Option<usize> = index_of.insert(batch_id.value, index);
        if repeated.is_some() {
            assert(before.contains_key(batch_id.value));
            assert(!distinct_batches(views)) by {
                let earlier = before[batch_id.value] as int;
                assert(views[earlier].batch_id == batch_id);
                assert(earlier < index);
            }
            return Err(OutputRecoveryModelError::DuplicateBatchRequirements);
        }
        proof {
            assert forall|i: int, j: int|
                #![trigger views[i], views[j]]
                0 <= i < j < index + 1 implies views[i].batch_id != views[j].batch_id by {
                if j == index {
                    assert(before.contains_key(views[i].batch_id.value));
                }
            }
        }
        index = index + 1;
    }
    assert(distinct_batches(views));

    let occurrences: Vec<Occurrence> = collect_occurrences(outputs);
    let mut covered: HashSet<u128> = HashSet::new();
    let mut next: usize = 0;
    assert(occurrences@.subrange(0, 0) =~= Seq::empty());
    while next < occurrences.len()
        invariant
            next <= occurrences@.len(),
            occurrences@ == published_occurrences(outputs@),
            total == batches@.len(),
            views == requirement_views(batches@),
            distinct_batches(views),
            indexes_batches(index_of@, views, total as int),
            published_fault(views, occurrences@.subrange(0, next as int)) is None,
            indexes_published(covered@, views, occurrences@.subrange(0, next as int)),
        decreases occurrences@.len() - next,
    {
        let occurrence: Occurrence = occurrences[next];
        let ghost earlier = occurrences@.subrange(0, next as int);
        let ghost through = occurrences@.subrange(0, next + 1);
        assert(through.drop_last() =~= earlier);
        assert(through.last() == occurrence);
        match index_of.get(&occurrence.batch_id.value) {
            Some(found) => {
                let at: usize = *found;
                proof {
                    assert(views[at as int].batch_id == occurrence.batch_id);
                    assert(known_batch(views, occurrence.batch_id));
                    assert(required(views, occurrence.batch_id, occurrence.position)
                        == views[at as int].positions.contains(occurrence.position));
                    assert(placed(views, occurrence.batch_id, occurrence.spool_range) == (
                    views[at as int].spool_range == occurrence.spool_range));
                }
                let listed: &BatchOutputRequirements = &batches[at];
                proof {
                    use_type_invariant(listed);
                }
                if !contains_position(&batches[at].positions, occurrence.position) {
                    proof {
                        lemma_published_fault_persists(views, occurrences@, next + 1);
                    }
                    return Err(OutputRecoveryModelError::PublishedCoverageIsUnknown);
                }
                if batches[at].spool_range != occurrence.spool_range {
                    proof {
                        lemma_published_fault_persists(views, occurrences@, next + 1);
                    }
                    return Err(OutputRecoveryModelError::PublishedCoverageRangeMismatch);
                }
                let key: u128 = at as u128 * 0x1_0000_0000_0000_0000 + occurrence.position as u128;
                assert(key == occurrence_key(at as int, occurrence.position));
                let fresh: bool = covered.insert(key);
                if !fresh {
                    proof {
                        lemma_published_fault_persists(views, occurrences@, next + 1);
                    }
                    return Err(OutputRecoveryModelError::PublishedCoverageOverlaps);
                }
                proof {
                    assert forall|i: int, position: u64| 0 <= i < views.len() implies (
                    covered@.contains(#[trigger] occurrence_key(i, position) as u128)
                        <==> published(through, views[i].batch_id, position)) by {
                        if covered@.contains(occurrence_key(i, position) as u128) {
                            if occurrence_key(i, position) as u128 == key {
                                lemma_occurrence_keys_differ(
                                    i,
                                    position,
                                    at as int,
                                    occurrence.position,
                                );
                                assert(through[next as int].position == position);
                            } else {
                                assert(published(earlier, views[i].batch_id, position));
                                let k = choose|k: int|
                                    0 <= k < earlier.len() && (#[trigger] earlier[k]).batch_id
                                        == views[i].batch_id && earlier[k].position == position;
                                assert(through[k] == earlier[k]);
                            }
                        }
                        if published(through, views[i].batch_id, position) {
                            let k = choose|k: int|
                                0 <= k < through.len() && (#[trigger] through[k]).batch_id
                                    == views[i].batch_id && through[k].position == position;
                            if k < next {
                                assert(earlier[k] == through[k]);
                                assert(published(earlier, views[i].batch_id, position));
                            } else {
                                assert(i == at);
                            }
                        }
                    }
                }
            },
            None => {
                proof {
                    assert(!known_batch(views, occurrence.batch_id)) by {
                        if known_batch(views, occurrence.batch_id) {
                            let k = choose|k: int|
                                0 <= k < views.len() && (#[trigger] views[k]).batch_id
                                    == occurrence.batch_id;
                            assert(index_of@.contains_key(views[k].batch_id.value));
                        }
                    }
                    assert forall|i: int, position: u64| 0 <= i < views.len() implies (
                    covered@.contains(#[trigger] occurrence_key(i, position) as u128)
                        <==> published(through, views[i].batch_id, position)) by {
                        if published(through, views[i].batch_id, position) {
                            let k = choose|k: int|
                                0 <= k < through.len() && (#[trigger] through[k]).batch_id
                                    == views[i].batch_id && through[k].position == position;
                            assert(k < next);
                            assert(earlier[k] == through[k]);
                            assert(published(earlier, views[i].batch_id, position));
                        }
                        if published(earlier, views[i].batch_id, position) {
                            let k = choose|k: int|
                                0 <= k < earlier.len() && (#[trigger] earlier[k]).batch_id
                                    == views[i].batch_id && earlier[k].position == position;
                            assert(through[k] == earlier[k]);
                        }
                    }
                }
            },
        }
        next = next + 1;
    }
    assert(occurrences@.subrange(0, next as int) =~= occurrences@);

    let mut target: SpoolCheckpoint = current;
    let mut passed: usize = 0;
    while passed < batches.len()
        invariant
            passed <= total == batches@.len(),
            views == requirement_views(batches@),
            distinct_batches(views),
            occurrences@ == published_occurrences(outputs@),
            published_fault(views, occurrences@) is None,
            indexes_published(covered@, views, occurrences@),
            reachable_checkpoint(views, occurrences@, 0, current) == reachable_checkpoint(
                views,
                occurrences@,
                passed as int,
                target,
            ),
        ensures
            reachable_checkpoint(views, occurrences@, 0, current) == Ok::<
                SpoolCheckpoint,
                OutputRecoveryModelError,
            >(target),
        decreases batches@.len() - passed,
    {
        let batch: &BatchOutputRequirements = &batches[passed];
        assert(views[passed as int] == batch@);
        if batch.spool_range.start() != target {
            return Err(OutputRecoveryModelError::BatchRequirementsAreNotContiguous);
        }
        let mut complete: bool = true;
        let mut position: usize = 0;
        while complete && position < batch.positions.len()
            invariant
                position <= batch.positions@.len(),
                passed < total == batches@.len(),
                views == requirement_views(batches@),
                batch@ == views[passed as int],
                indexes_published(covered@, views, occurrences@),
                complete ==> forall|i: int|
                    0 <= i < position ==> published(
                        occurrences@,
                        batch.batch_id,
                        #[trigger] batch.positions@[i],
                    ),
                !complete ==> !batch_complete(batch@, occurrences@),
            decreases batch.positions@.len() - position, complete as int,
        {
            let wanted: u64 = batch.positions[position];
            let key: u128 = passed as u128 * 0x1_0000_0000_0000_0000 + wanted as u128;
            assert(key == occurrence_key(passed as int, wanted));
            if covered.contains(&key) {
                position = position + 1;
            } else {
                assert(!published(occurrences@, batch@.batch_id, batch@.positions[position as int]));
                complete = false;
            }
        }
        if !complete {
            break;
        }
        assert(batch_complete(views[passed as int], occurrences@));
        target = batch.spool_range.end();
        passed = passed + 1;
    }
    if target != current {
        Ok(Some(CheckpointPlan { current, target }))
    } else {
        Ok(None)
    }
}

/// Whether `target` is where the first `count` batches end, all of them complete.
pub open spec fn ends_after(
    batches: Seq<CoverageView>,
    occurrences: Seq<Occurrence>,
    count: int,
    target: SpoolCheckpoint,
) -> bool {
    &&& 0 < count <= batches.len()
    &&& target == batches[count - 1].spool_range.spec_end()
    &&& forall|i: int| 0 <= i < count ==> batch_complete(#[trigger] batches[i], occurrences)
}

/// A checkpoint moves forward only, and only past batches all of whose occurrences have been
/// published.
pub proof fn checkpoint_passes_only_published_batches(
    current: SpoolCheckpoint,
    batches: Seq<CoverageView>,
    occurrences: Seq<Occurrence>,
    plan: CheckpointPlan,
)
    requires
        checkpoint_plan(current, batches, occurrences) == Ok::<
            Option<CheckpointPlan>,
            OutputRecoveryModelError,
        >(Some(plan)),
        forall|i: int|
            0 <= i < batches.len() ==> (#[trigger] batches[i]).spool_range.spec_start().position
                < batches[i].spool_range.spec_end().position,
    ensures
        plan.current == current,
        plan.target.position > current.position,
        exists|count: int| #[trigger] ends_after(batches, occurrences, count, plan.target),
{
    lemma_reachable_checkpoint(batches, occurrences, 0, current);
    let target = reachable_checkpoint(batches, occurrences, 0, current)->Ok_0;
    assert(plan.target == target);
    assert(exists|count: int| #[trigger] ends_after(batches, occurrences, count, target));
}

proof fn lemma_reachable_checkpoint(
    batches: Seq<CoverageView>,
    occurrences: Seq<Occurrence>,
    index: int,
    start: SpoolCheckpoint,
)
    requires
        0 <= index <= batches.len(),
        reachable_checkpoint(batches, occurrences, index, start) is Ok,
        forall|i: int|
            0 <= i < batches.len() ==> (#[trigger] batches[i]).spool_range.spec_start().position
                < batches[i].spool_range.spec_end().position,
        forall|i: int| 0 <= i < index ==> batch_complete(#[trigger] batches[i], occurrences),
    ensures
        ({
            let target = reachable_checkpoint(batches, occurrences, index, start)->Ok_0;
            &&& target.position >= start.position
            &&& target != start ==> target.position > start.position && exists|count: int|
                #[trigger] ends_after(batches, occurrences, count, target)
        }),
    decreases batches.len() - index,
{
    if index < batches.len() && batches[index].spool_range.spec_start() == start && batch_complete(
        batches[index],
        occurrences,
    ) {
        let end = batches[index].spool_range.spec_end();
        lemma_reachable_checkpoint(batches, occurrences, index + 1, end);
        let target = reachable_checkpoint(batches, occurrences, index, start)->Ok_0;
        if target == end {
            assert(ends_after(batches, occurrences, index + 1, target));
        }
    }
}

/// Whether one of the occurrences is at this position of this batch.
pub open spec fn occurs(
    occurrences: Seq<Occurrence>,
    batch_id: BatchId,
    position: u64,
    at: int,
) -> bool {
    &&& 0 <= at < occurrences.len()
    &&& occurrences[at].batch_id == batch_id
    &&& occurrences[at].position == position
}

/// Whether this position of this batch occurs at all.
pub open spec fn occurs_somewhere(
    occurrences: Seq<Occurrence>,
    batch_id: BatchId,
    position: u64,
) -> bool {
    exists|at: int| #[trigger] occurs(occurrences, batch_id, position, at)
}

/// Whether each position of a batch occurs.
pub open spec fn all_occur(batch: CoverageView, occurrences: Seq<Occurrence>) -> bool {
    forall|p: int|
        0 <= p < batch.positions.len() ==> occurs_somewhere(
            occurrences,
            batch.batch_id,
            #[trigger] batch.positions[p],
        )
}

/// Whether a batch begins where the one before it ends, or at `start` if it is the first.
pub open spec fn follows_on(batches: Seq<CoverageView>, start: SpoolCheckpoint, i: int) -> bool {
    batches[i].spool_range.spec_start() == if i == 0 {
        start
    } else {
        batches[i - 1].spool_range.spec_end()
    }
}

/// Whether each of the first `count` batches begins where the one before it ends, the first of them
/// at `start`.
pub open spec fn contiguous(batches: Seq<CoverageView>, start: SpoolCheckpoint, count: int) -> bool {
    forall|i: int| 0 <= i < count ==> #[trigger] follows_on(batches, start, i)
}

/// Whether `target` is where a run of contiguous batches from `current` ends all of whose positions
/// occur, and the batch behind it, if there is one, begins there and has a position that does not.
pub open spec fn stops_behind(
    batches: Seq<CoverageView>,
    occurrences: Seq<Occurrence>,
    current: SpoolCheckpoint,
    target: SpoolCheckpoint,
    count: int,
) -> bool {
    &&& 0 <= count <= batches.len()
    &&& target == if count == 0 {
        current
    } else {
        batches[count - 1].spool_range.spec_end()
    }
    &&& forall|i: int| 0 <= i < count ==> all_occur(#[trigger] batches[i], occurrences)
    &&& contiguous(
        batches,
        current,
        if count < batches.len() {
            count + 1
        } else {
            count
        },
    )
    &&& count < batches.len() ==> !all_occur(batches[count], occurrences)
}

/// Whether there is such a run of batches.
pub open spec fn stops(
    batches: Seq<CoverageView>,
    occurrences: Seq<Occurrence>,
    current: SpoolCheckpoint,
    target: SpoolCheckpoint,
) -> bool {
    exists|count: int| #[trigger] stops_behind(batches, occurrences, current, target, count)
}

proof fn lemma_complete(batch: CoverageView, occurrences: Seq<Occurrence>)
    ensures
        batch_complete(batch, occurrences) == all_occur(batch, occurrences),
{
    if batch_complete(batch, occurrences) {
        assert forall|p: int| 0 <= p < batch.positions.len() implies occurs_somewhere(
            occurrences,
            batch.batch_id,
            #[trigger] batch.positions[p],
        ) by {
            let position = batch.positions[p];
            assert(published(occurrences, batch.batch_id, position));
            let at = choose|i: int|
                0 <= i < occurrences.len() && (#[trigger] occurrences[i]).batch_id
                    == batch.batch_id && occurrences[i].position == position;
            assert(occurs(occurrences, batch.batch_id, position, at));
        }
    }
    if all_occur(batch, occurrences) {
        assert forall|p: int| 0 <= p < batch.positions.len() implies published(
            occurrences,
            batch.batch_id,
            #[trigger] batch.positions[p],
        ) by {
            let at = choose|at: int| #[trigger]
                occurs(occurrences, batch.batch_id, batch.positions[p], at);
            assert(occurrences[at].batch_id == batch.batch_id);
            assert(published(occurrences, batch.batch_id, batch.positions[p]));
        }
    }
}

proof fn lemma_stops(
    batches: Seq<CoverageView>,
    occurrences: Seq<Occurrence>,
    current: SpoolCheckpoint,
    index: int,
    start: SpoolCheckpoint,
)
    requires
        0 <= index <= batches.len(),
        start == if index == 0 {
            current
        } else {
            batches[index - 1].spool_range.spec_end()
        },
        forall|i: int| 0 <= i < index ==> all_occur(#[trigger] batches[i], occurrences),
        contiguous(batches, current, index),
    ensures
        reachable_checkpoint(batches, occurrences, index, start) matches Ok(target) ==> stops(
            batches,
            occurrences,
            current,
            target,
        ),
        reachable_checkpoint(batches, occurrences, index, start) matches Err(e) ==> e
            == OutputRecoveryModelError::BatchRequirementsAreNotContiguous && !contiguous(
            batches,
            current,
            batches.len() as int,
        ),
    decreases batches.len() - index,
{
    let reached = reachable_checkpoint(batches, occurrences, index, start);
    if index == batches.len() {
        assert(reached == Ok::<SpoolCheckpoint, OutputRecoveryModelError>(start));
        assert(stops_behind(batches, occurrences, current, start, index));
    } else if batches[index].spool_range.spec_start() != start {
        assert(!follows_on(batches, current, index));
    } else {
        assert(follows_on(batches, current, index));
        lemma_complete(batches[index], occurrences);
        let end = batches[index].spool_range.spec_end();
        if batch_complete(batches[index], occurrences) {
            assert(reached == reachable_checkpoint(batches, occurrences, index + 1, end));
            lemma_stops(batches, occurrences, current, index + 1, end);
        } else {
            assert(reached == Ok::<SpoolCheckpoint, OutputRecoveryModelError>(start));
            assert(stops_behind(batches, occurrences, current, start, index));
        }
    }
}

/// A checkpoint is moved as far as it may be: behind every batch that follows the one before it and
/// all of whose positions occur, and no further than the first batch with a position that does not.
/// It is left alone where the first batch is such a one.
pub proof fn the_checkpoint_stops_at_the_first_open_batch(
    current: SpoolCheckpoint,
    batches: Seq<CoverageView>,
    occurrences: Seq<Occurrence>,
)
    requires
        checkpoint_plan(current, batches, occurrences) is Ok,
    ensures
        match checkpoint_plan(current, batches, occurrences)->Ok_0 {
            Some(plan) => {
                &&& plan.current == current
                &&& plan.target != current
                &&& stops(batches, occurrences, current, plan.target)
            },
            None => stops(batches, occurrences, current, current),
        },
{
    lemma_stops(batches, occurrences, current, 0, current);
}

/// Whether an occurrence is one that a batch wants: at one of its positions, and in its range.
pub open spec fn wanted(batch: CoverageView, occurrence: Occurrence) -> bool {
    &&& batch.positions.contains(occurrence.position)
    &&& batch.spool_range == occurrence.spool_range
}

/// Whether every occurrence at a listed batch is one that the batch wants, and none of them stands
/// twice.
pub open spec fn occurrences_sound(
    batches: Seq<CoverageView>,
    occurrences: Seq<Occurrence>,
) -> bool {
    &&& forall|i: int, k: int|
        #![trigger batches[i], occurrences[k]]
        0 <= i < batches.len() && 0 <= k < occurrences.len() && batches[i].batch_id
            == occurrences[k].batch_id ==> wanted(batches[i], occurrences[k])
    &&& forall|i: int, j: int, k: int|
        #![trigger batches[i], occurrences[j], occurrences[k]]
        0 <= i < batches.len() && 0 <= j < k < occurrences.len() && batches[i].batch_id
            == occurrences[j].batch_id && occurrences[j].batch_id == occurrences[k].batch_id
            ==> occurrences[j].position != occurrences[k].position
}

proof fn lemma_sound(batches: Seq<CoverageView>, occurrences: Seq<Occurrence>)
    requires
        distinct_batches(batches),
    ensures
        published_fault(batches, occurrences) is None <==> occurrences_sound(batches, occurrences),
    decreases occurrences.len(),
{
    if occurrences.len() > 0 {
        let earlier = occurrences.drop_last();
        let last = occurrences.last();
        lemma_sound(batches, earlier);
        assert forall|k: int| 0 <= k < earlier.len() implies earlier[k] == occurrences[k] by {}
        if published_fault(batches, occurrences) is None {
            assert(occurrence_fault(batches, earlier, last) is None);
            assert forall|i: int, k: int|
                #![trigger batches[i], occurrences[k]]
                0 <= i < batches.len() && 0 <= k < occurrences.len() && batches[i].batch_id
                    == occurrences[k].batch_id implies wanted(batches[i], occurrences[k]) by {
                if k < earlier.len() {
                    assert(earlier[k] == occurrences[k]);
                } else {
                    assert(known_batch(batches, last.batch_id));
                }
            }
            assert forall|i: int, j: int, k: int|
                #![trigger batches[i], occurrences[j], occurrences[k]]
                0 <= i < batches.len() && 0 <= j < k < occurrences.len() && batches[i].batch_id
                    == occurrences[j].batch_id && occurrences[j].batch_id
                    == occurrences[k].batch_id implies occurrences[j].position
                != occurrences[k].position by {
                assert(earlier[j] == occurrences[j]);
                if k < earlier.len() {
                    assert(earlier[k] == occurrences[k]);
                } else {
                    assert(known_batch(batches, last.batch_id));
                }
            }
        }
        if occurrences_sound(batches, occurrences) {
            assert(occurrences_sound(batches, earlier)) by {
                assert forall|i: int, k: int|
                    #![trigger batches[i], earlier[k]]
                    0 <= i < batches.len() && 0 <= k < earlier.len() && batches[i].batch_id
                        == earlier[k].batch_id implies wanted(batches[i], earlier[k]) by {
                    assert(earlier[k] == occurrences[k]);
                }
                assert forall|i: int, j: int, k: int|
                    #![trigger batches[i], earlier[j], earlier[k]]
                    0 <= i < batches.len() && 0 <= j < k < earlier.len() && batches[i].batch_id
                        == earlier[j].batch_id && earlier[j].batch_id
                        == earlier[k].batch_id implies earlier[j].position
                    != earlier[k].position by {
                    assert(earlier[j] == occurrences[j]);
                    assert(earlier[k] == occurrences[k]);
                }
            }
            if known_batch(batches, last.batch_id) {
                let i = choose|i: int|
                    0 <= i < batches.len() && (#[trigger] batches[i]).batch_id == last.batch_id;
                assert(occurrences[occurrences.len() - 1] == last);
                assert(wanted(batches[i], occurrences[occurrences.len() - 1]));
                if published(earlier, last.batch_id, last.position) {
                    let j = choose|j: int|
                        0 <= j < earlier.len() && (#[trigger] earlier[j]).batch_id == last.batch_id
                            && earlier[j].position == last.position;
                    assert(occurrences[j] == earlier[j]);
                    assert(batches[i].batch_id == occurrences[j].batch_id);
                }
            }
        }
    }
}

/// A plan is refused exactly where a batch is listed twice, where an occurrence at a listed batch is
/// not at one of its positions, not in its range or stands twice, or where the batches up to the
/// first with a position that does not occur are not contiguous.
pub proof fn plans_are_refused_for_a_reason(
    current: SpoolCheckpoint,
    batches: Seq<CoverageView>,
    occurrences: Seq<Occurrence>,
)
    ensures
        checkpoint_plan(current, batches, occurrences) is Ok ==> {
            &&& forall|i: int, j: int|
                #![trigger batches[i], batches[j]]
                0 <= i < j < batches.len() ==> batches[i].batch_id != batches[j].batch_id
            &&& occurrences_sound(batches, occurrences)
        },
        distinct_batches(batches) && occurrences_sound(batches, occurrences) && contiguous(
            batches,
            current,
            batches.len() as int,
        ) ==> checkpoint_plan(current, batches, occurrences) is Ok,
        match checkpoint_plan(current, batches, occurrences) {
            Ok(_) => true,
            Err(e) => match e {
                OutputRecoveryModelError::DuplicateBatchRequirements => exists|i: int, j: int|
                    #![trigger batches[i], batches[j]]
                    0 <= i < j < batches.len() && batches[i].batch_id == batches[j].batch_id,
                OutputRecoveryModelError::BatchRequirementsAreNotContiguous => !contiguous(
                    batches,
                    current,
                    batches.len() as int,
                ),
                _ => !occurrences_sound(batches, occurrences),
            },
        },
{
    if distinct_batches(batches) {
        lemma_sound(batches, occurrences);
        lemma_stops(batches, occurrences, current, 0, current);
        lemma_fault_kinds(batches, occurrences);
    }
}

proof fn lemma_fault_kinds(batches: Seq<CoverageView>, occurrences: Seq<Occurrence>)
    ensures
        match published_fault(batches, occurrences) {
            None => true,
            Some(e) => e is PublishedCoverageIsUnknown || e is PublishedCoverageRangeMismatch || e
                is PublishedCoverageOverlaps,
        },
    decreases occurrences.len(),
{
    if occurrences.len() > 0 {
        lemma_fault_kinds(batches, occurrences.drop_last());
    }
}

/// The occurrences of outputs are those of their coverages one behind the other, and those of a
/// coverage are the positions of its items one behind the other, each with the batch and the range
/// of its item.
pub proof fn every_position_of_an_output_occurs(
    first: Seq<PublishedOutput>,
    second: Seq<PublishedOutput>,
    output: PublishedOutput,
    left: Seq<CoverageView>,
    right: Seq<CoverageView>,
    item: CoverageView,
)
    ensures
        published_occurrences(first + second) == published_occurrences(first)
            + published_occurrences(second),
        published_occurrences(seq![output]) == coverage_occurrences(output.record@.coverage),
        coverage_occurrences(left + right) == coverage_occurrences(left) + coverage_occurrences(
            right,
        ),
        coverage_occurrences(seq![item]).len() == item.positions.len(),
        forall|i: int|
            0 <= i < item.positions.len() ==> {
                let occurrence = #[trigger] coverage_occurrences(seq![item])[i];
                &&& occurrence.batch_id == item.batch_id
                &&& occurrence.spool_range == item.spool_range
                &&& occurrence.position == item.positions[i]
            },
{
    lemma_outputs_add(first, second);
    lemma_coverage_adds(left, right);
    assert(seq![output].drop_last() =~= Seq::empty());
    assert(published_occurrences(seq![output].drop_last()) =~= Seq::empty());
    assert(seq![item].drop_last() =~= Seq::empty());
    assert(coverage_occurrences(seq![item].drop_last()) =~= Seq::empty());
    assert(coverage_occurrences(seq![item]) =~= item_occurrences(item));
    assert(published_occurrences(seq![output]) =~= coverage_occurrences(output.record@.coverage));
}

proof fn lemma_coverage_adds(left: Seq<CoverageView>, right: Seq<CoverageView>)
    ensures
        coverage_occurrences(left + right) == coverage_occurrences(left) + coverage_occurrences(
            right,
        ),
    decreases right.len(),
{
    if right.len() == 0 {
        assert(left + right =~= left);
    } else {
        lemma_coverage_adds(left, right.drop_last());
        assert((left + right).drop_last() =~= left + right.drop_last());
        assert(coverage_occurrences(left + right) =~= coverage_occurrences(left)
            + coverage_occurrences(right));
    }
}

proof fn lemma_outputs_add(first: Seq<PublishedOutput>, second: Seq<PublishedOutput>)
    ensures
        published_occurrences(first + second) == published_occurrences(first)
            + published_occurrences(second),
    decreases second.len(),
{
    if second.len() == 0 {
        assert(first + second =~= first);
    } else {
        lemma_outputs_add(first, second.drop_last());
        assert((first + second).drop_last() =~= first + second.drop_last());
        assert(published_occurrences(first + second) =~= published_occurrences(first)
            + published_occurrences(second));
    }
}

} // verus!
