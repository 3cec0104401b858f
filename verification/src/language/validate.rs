//! Rules on a pipeline as a whole.

use vstd::prelude::*;

use crate::language::ir::{stage_views, Pipeline, Stage, StageKind};
use crate::language::pipeline::is_ordered;

verus! {

/// Why the stages of a pipeline do not fit together.
#[derive(Clone, Copy, Debug, PartialEq, Eq, Structural)]
pub enum PipelineError {
    /// More than one stage summarizes.
    MultipleAggregates,
    /// A stage other than a sort or a limit follows the one that summarizes.
    AggregateAfterAggregate,
}

/// How many of the first `count` stages summarize.
pub open spec fn summary_count(stages: Seq<Stage>, count: int) -> nat
    decreases count,
{
    if count <= 0 {
        0
    } else {
        summary_count(stages, count - 1) + if stages[count - 1].kind is Aggregate {
            1nat
        } else {
            0nat
        }
    }
}

/// Whether a stage may follow one that summarizes.
pub open spec fn may_follow(stage: Stage) -> bool {
    stage.kind is Sort || stage.kind is Take
}

/// Whether a stage that may not follows one that summarizes.
pub open spec fn is_misplaced(stages: Seq<Stage>) -> bool {
    exists|i: int, j: int|
        0 <= i < j < stages.len() && (#[trigger] stages[i]).kind is Aggregate && !may_follow(
            #[trigger] stages[j],
        )
}

/// What is wrong with the stages of a pipeline. Of several stages that summarize only that is
/// said.
pub open spec fn faults(stages: Seq<Stage>) -> Seq<PipelineError> {
    if summary_count(stages, stages.len() as int) > 1 {
        seq![PipelineError::MultipleAggregates]
    } else if is_misplaced(stages) {
        seq![PipelineError::AggregateAfterAggregate]
    } else {
        Seq::empty()
    }
}

/// Checks the rules on the stages of a pipeline.
pub fn validate_pipeline(pipeline: &Pipeline) -> (r: Result<(), Vec<PipelineError>>)
    ensures
        match r {
            Ok(_) => faults(pipeline.stages@) == Seq::<PipelineError>::empty(),
            Err(errors) => errors@.len() > 0 && errors@ == faults(pipeline.stages@),
        },
{
    let stages: &Vec<Stage> = &pipeline.stages;
    let mut first: Option<usize> = None;
    let mut repeated: bool = false;
    let mut misplaced: bool = false;
    let mut index: usize = 0;
    while index < stages.len()
        invariant
            index <= stages@.len(),
            repeated == (summary_count(stages@, index as int) > 1),
            match first {
                None => summary_count(stages@, index as int) == 0 && !misplaced && forall|i: int|
                    0 <= i < index ==> !((#[trigger] stages@[i]).kind is Aggregate),
                Some(place) => {
                    &&& place < index
                    &&& stages@[place as int].kind is Aggregate
                    &&& summary_count(stages@, index as int) >= 1
                    &&& forall|i: int|
                        0 <= i < place ==> !((#[trigger] stages@[i]).kind is Aggregate)
                    &&& misplaced == exists|j: int|
                        place < j < index && !may_follow(#[trigger] stages@[j])
                },
            },
        decreases stages@.len() - index,
    {
        let stage: &Stage = &stages[index];
        let summary: bool = matches!(stage.kind, StageKind::Aggregate { .. });
        if let Some(place) = first {
            if !matches!(stage.kind, StageKind::Sort(_) | StageKind::Take(_)) {
                misplaced = true;
                assert(!may_follow(stages@[index as int]));
            } else if misplaced {
                let ghost j = choose|j: int|
                    place < j < index && !may_follow(#[trigger] stages@[j]);
                assert(!may_follow(stages@[j]));
            }
            if summary {
                repeated = true;
            }
        } else if summary {
            first = Some(index);
        }
        index = index + 1;
    }
    let mut errors: Vec<PipelineError> = Vec::new();
    if repeated {
        errors.push(PipelineError::MultipleAggregates);
        assert(errors@ =~= faults(stages@));
        return Err(errors);
    }
    if misplaced {
        proof {
            let i = first->0 as int;
            let j = choose|j: int| i < j < index && !may_follow(#[trigger] stages@[j]);
            assert(stages@[i].kind is Aggregate && !may_follow(stages@[j]));
        }
        errors.push(PipelineError::AggregateAfterAggregate);
        assert(errors@ =~= faults(stages@));
        return Err(errors);
    }
    assert(!is_misplaced(stages@)) by {
        if is_misplaced(stages@) {
            let (i, j) = choose|i: int, j: int|
                0 <= i < j < stages@.len() && (#[trigger] stages@[i]).kind is Aggregate
                    && !may_follow(#[trigger] stages@[j]);
            assert(first is Some && first->0 <= i);
            assert(!may_follow(stages@[j]));
        }
    }
    Ok(())
}

proof fn lemma_summaries(stages: Seq<Stage>, count: int)
    requires
        0 <= count <= stages.len(),
    ensures
        summary_count(stages, count) > 0 ==> exists|i: int|
            0 <= i < count && (#[trigger] stages[i]).kind is Aggregate,
        summary_count(stages, count) > 1 ==> exists|i: int, j: int|
            0 <= i < j < count && (#[trigger] stages[i]).kind is Aggregate && (
            #[trigger] stages[j]).kind is Aggregate,
    decreases count,
{
    if count > 0 {
        lemma_summaries(stages, count - 1);
        if stages[count - 1].kind is Aggregate && summary_count(stages, count) > 1 {
            let i = choose|i: int|
                0 <= i < count - 1 && (#[trigger] stages[i]).kind is Aggregate;
            assert(stages[i].kind is Aggregate && stages[count - 1].kind is Aggregate);
        }
    }
}

/// Stages of which only sorts and limits follow a summary, as those of an analyzed query do,
/// break no rule.
pub proof fn ordered_stages_have_no_fault(stages: Seq<Stage>)
    requires
        is_ordered(stage_views(stages)),
    ensures
        faults(stages) == Seq::<PipelineError>::empty(),
{
    let views = stage_views(stages);
    lemma_summaries(stages, stages.len() as int);
    if summary_count(stages, stages.len() as int) > 1 {
        let (i, j) = choose|i: int, j: int|
            0 <= i < j < stages.len() && (#[trigger] stages[i]).kind is Aggregate && (
            #[trigger] stages[j]).kind is Aggregate;
        assert(views[i].kind is Aggregate && views[j].kind is Aggregate);
    } else if is_misplaced(stages) {
        let (i, j) = choose|i: int, j: int|
            0 <= i < j < stages.len() && (#[trigger] stages[i]).kind is Aggregate && !may_follow(
                #[trigger] stages[j],
            );
        assert(views[i].kind is Aggregate && !(views[j].kind is Sort || views[j].kind is Take));
    }
}

proof fn lemma_two_summaries(stages: Seq<Stage>, count: int, i: int)
    requires
        0 <= i < count <= stages.len(),
        stages[i].kind is Aggregate,
    ensures
        summary_count(stages, count) >= 1,
        summary_count(stages, count) >= 1 + summary_count(stages, i),
    decreases count,
{
    if i < count - 1 {
        lemma_two_summaries(stages, count - 1, i);
    }
}

/// A pipeline breaks a rule exactly if a stage other than a sort or a limit stands somewhere behind
/// one that summarizes, and it is said of it that it summarizes twice exactly if it does.
pub proof fn only_sorts_and_limits_follow_a_summary(stages: Seq<Stage>)
    ensures
        faults(stages).len() > 0 <==> exists|i: int, j: int|
            #![trigger stages[i], stages[j]]
            0 <= i < j < stages.len() && stages[i].kind is Aggregate && !(stages[j].kind is Sort)
                && !(stages[j].kind is Take),
        faults(stages).contains(PipelineError::MultipleAggregates) <==> exists|i: int, j: int|
            #![trigger stages[i], stages[j]]
            0 <= i < j < stages.len() && stages[i].kind is Aggregate && stages[j].kind is Aggregate,
        faults(stages).len() <= 1,
{
    let count = stages.len() as int;
    lemma_summaries(stages, count);
    if summary_count(stages, count) > 1 {
        let (i, j) = choose|i: int, j: int|
            0 <= i < j < count && (#[trigger] stages[i]).kind is Aggregate && (
            #[trigger] stages[j]).kind is Aggregate;
        assert(stages[i].kind is Aggregate && stages[j].kind is Aggregate);
        assert(faults(stages)[0] == PipelineError::MultipleAggregates);
    } else {
        assert forall|i: int, j: int|
            #![trigger stages[i], stages[j]]
            0 <= i < j < stages.len() && stages[i].kind is Aggregate implies !(stages[j].kind
            is Aggregate) by {
            if stages[j].kind is Aggregate {
                lemma_two_summaries(stages, count, j);
                lemma_two_summaries(stages, j, i);
            }
        }
        if is_misplaced(stages) {
            let (i, j) = choose|i: int, j: int|
                0 <= i < j < count && (#[trigger] stages[i]).kind is Aggregate && !may_follow(
                    #[trigger] stages[j],
                );
            assert(stages[i].kind is Aggregate && !(stages[j].kind is Sort) && !(stages[j].kind
                is Take));
            assert(faults(stages)[0] == PipelineError::AggregateAfterAggregate);
        } else {
            assert forall|i: int, j: int|
                #![trigger stages[i], stages[j]]
                0 <= i < j < stages.len() && stages[i].kind is Aggregate implies stages[j].kind
                is Sort || stages[j].kind is Take by {
                assert(may_follow(stages[j]));
            }
        }
    }
}

} // verus!
