//! How typed pipelines stand to the queries that they were made of.

use vstd::prelude::*;

use crate::calendar::rfc3339_instant;
use crate::catalog;
use crate::catalog::{FieldRole, LogicalType, Nullability};
use crate::language::ast;
use crate::language::ast::{
    BoundView, NumericSign, SortDirection, TimeDirection, TimeOperation, TimeOperationKind,
    TimeUnit, TimeView,
};
use crate::language::command::{
    aggregate_result, groups_from, has_name, measured, measures_from, pipeline_function, projected,
    projections_from, sorts_from, staged, summarized,
};
use crate::language::error::SemanticError;
use crate::language::expression::{resolved, typed};
use crate::language::floats::FloatFacts;
use crate::language::ir::{
    field_named, AggregateExpression, AggregateFunction, Field, FieldOrigin, Projection, SortOrder,
    SortSpec, StageView, StepView, UtcInstant,
};
use crate::language::meaning::{
    lemma_first_named, names_no_field, says, typed_expressions_say_what_was_written,
};
use crate::language::pipeline::{analyzed, schema_relation, source_named, stages_made};
use crate::language::time::{
    bound_instant, range_of_source, stepped, steps_from, truncation_finds_the_unit,
    unit_milliseconds, QueryTimeContext,
};

verus! {

/// Whether a function of a pipeline is that of a query.
pub open spec fn same_function(function: AggregateFunction, named: ast::AggregateFunction) -> bool {
    match function {
        AggregateFunction::Count => named is Count,
        AggregateFunction::Sum => named is Sum,
        AggregateFunction::Min => named is Min,
        AggregateFunction::Max => named is Max,
        AggregateFunction::Average => named is Avg,
    }
}

/// Whether a projection says what a projection of a query says: the same expression, under the same
/// name.
pub open spec fn projection_says(made: Projection, projection: ast::Projection) -> bool {
    &&& made.output_field.logical_type == made.expression.logical_type
    &&& made.output_field.nullability == made.expression.nullability
    &&& match projection {
        ast::Projection::Field(reference) => {
            &&& made.output_field.name@ == reference.name()@
            &&& says(
                made.expression,
                ast::Expression {
                    kind: ast::ExpressionKind::Field(reference),
                    span: reference.place(),
                },
            )
        },
        ast::Projection::Computed(computed) => {
            &&& made.output_field.name@ == computed.alias.value@
            &&& says(made.expression, computed.expression)
        },
        ast::Projection::Unaliased(_) => false,
    }
}

/// Whether a field to sort by says what a sort item of a query says.
pub open spec fn sort_says(made: SortSpec, item: ast::SortItem, fields: Seq<Field>) -> bool {
    &&& fields.contains(made.field)
    &&& made.field.name@ == item.field.name()@
    &&& made.order == SortOrder::Descending <==> item.direction == SortDirection::Descending
}

/// The type of a sum of values of a type.
pub open spec fn sum_type(logical_type: LogicalType) -> LogicalType {
    match logical_type {
        LogicalType::Int32 | LogicalType::Int64 => LogicalType::Int64,
        LogicalType::UInt32 | LogicalType::UInt64 => LogicalType::UInt64,
        _ => LogicalType::Float64,
    }
}

/// Whether values of a type can be added.
pub open spec fn can_be_added(logical_type: LogicalType) -> bool {
    logical_type is Int32 || logical_type is Int64 || logical_type is UInt32 || logical_type
        is UInt64 || logical_type is Float32 || logical_type is Float64
}

/// Whether values of a type have a least and a greatest.
pub open spec fn has_extremes(logical_type: LogicalType) -> bool {
    can_be_added(logical_type) || logical_type is Utf8 || logical_type is Datetime || logical_type
        is Eid
}

/// Whether a measure says what a measure of a query says: the same function, of the same field,
/// under the same name, with the type that the function gives. Only a count is never null, and only
/// a count may do without a field.
pub open spec fn measure_says(
    made: AggregateExpression,
    measure: ast::Measure,
    fields: Seq<Field>,
) -> bool {
    &&& same_function(made.function, measure.aggregate.function)
    &&& measure.alias matches Some(alias)
    &&& made.output_field.name@ == alias.value@
    &&& match (made.argument, measure.aggregate.argument) {
        (None, None) => true,
        (Some(field), Some(reference)) => fields.contains(field) && field.name@
            == reference.name()@,
        _ => false,
    }
    &&& match made.function {
        AggregateFunction::Count => made.output_field.logical_type == LogicalType::Int64
            && made.output_field.nullability == Nullability::NonNull,
        AggregateFunction::Sum => {
            &&& made.argument matches Some(field)
            &&& can_be_added(field.logical_type)
            &&& made.output_field.logical_type == sum_type(field.logical_type)
            &&& made.output_field.nullability == Nullability::Nullable
        },
        AggregateFunction::Average => {
            &&& made.argument matches Some(field)
            &&& can_be_added(field.logical_type)
            &&& made.output_field.logical_type == LogicalType::Float64
            &&& made.output_field.nullability == Nullability::Nullable
        },
        AggregateFunction::Min | AggregateFunction::Max => {
            &&& made.argument matches Some(field)
            &&& has_extremes(field.logical_type)
            &&& made.output_field.logical_type == field.logical_type
            &&& made.output_field.nullability == Nullability::Nullable
        },
    }
}

/// Whether a field is that which a reference names.
pub open spec fn group_says(
    field: Field,
    reference: ast::FieldReference,
    fields: Seq<Field>,
) -> bool {
    fields.contains(field) && field.name@ == reference.name()@
}

/// Whether a typed stage says what a stage of a query says, and gives the fields that it must: a
/// filter, a sort and a limit those that they see, a projection its own, and a summary those that it
/// groups by and behind them its measures.
pub open spec fn stage_says(made: StageView, stage: ast::StageView, fields: Seq<Field>) -> bool {
    match stage.kind {
        ast::StepView::Filter(condition) => {
            &&& made.kind matches StepView::Filter(expression)
            &&& says(expression, condition)
            &&& made.output == fields
        },
        ast::StepView::Project(projections) => {
            &&& made.kind matches StepView::Project(rendered)
            &&& rendered.len() == projections.len()
            &&& made.output.len() == projections.len()
            &&& forall|i: int|
                0 <= i < projections.len() ==> projection_says(
                    #[trigger] rendered[i],
                    projections[i],
                ) && made.output[i] == rendered[i].output_field
        },
        ast::StepView::Sort(items) => {
            &&& made.kind matches StepView::Sort(specs)
            &&& specs.len() == items.len()
            &&& forall|i: int|
                0 <= i < items.len() ==> sort_says(#[trigger] specs[i], items[i], fields)
            &&& made.output == fields
        },
        ast::StepView::Take(value) => {
            &&& made.kind matches StepView::Take(count)
            &&& count == value.magnitude
            &&& value.sign == NumericSign::Negative ==> count == 0
            &&& made.output == fields
        },
        ast::StepView::Summarize { measures, group_by } => {
            &&& made.kind matches StepView::Aggregate { measures: rendered, group_by: groups }
            &&& rendered.len() == measures.len()
            &&& groups.len() == group_by.len()
            &&& made.output.len() == groups.len() + rendered.len()
            &&& forall|i: int|
                0 <= i < group_by.len() ==> group_says(#[trigger] groups[i], group_by[i], fields)
                    && made.output[i] == groups[i]
            &&& forall|i: int|
                0 <= i < measures.len() ==> measure_says(
                    #[trigger] rendered[i],
                    measures[i],
                    fields,
                ) && made.output[groups.len() + i] == rendered[i].output_field
        },
    }
}

proof fn lemma_field_named(fields: Seq<Field>, name: Seq<char>, from: int)
    ensures
        field_named(fields, name, from) matches Some(field) ==> field.name@ == name
            && fields.contains(field),
    decreases fields.len() - from,
{
    if 0 <= from < fields.len() {
        if fields[from].name@ == name {
            assert(fields.contains(fields[from]));
        } else {
            lemma_field_named(fields, name, from + 1);
        }
    }
}

proof fn lemma_projected(projection: ast::Projection, fields: Seq<Field>, facts: FloatFacts)
    ensures
        projected(projection, fields, facts) matches Ok((made, _)) ==> projection_says(
            made,
            projection,
        ),
{
    match projection {
        ast::Projection::Field(reference) => {
            let expression = ast::Expression {
                kind: ast::ExpressionKind::Field(reference),
                span: reference.place(),
            };
            typed_expressions_say_what_was_written(expression, fields, None, facts);
        },
        ast::Projection::Computed(computed) => {
            typed_expressions_say_what_was_written(computed.expression, fields, None, facts);
        },
        ast::Projection::Unaliased(_) => {},
    }
}

proof fn lemma_projections(
    projections: Seq<ast::Projection>,
    at: int,
    fields: Seq<Field>,
    made: Seq<Projection>,
    outputs: Seq<Field>,
    facts: FloatFacts,
)
    requires
        0 <= at <= projections.len(),
        made.len() == at,
        outputs.len() == at,
        forall|i: int|
            0 <= i < at ==> projection_says(#[trigger] made[i], projections[i]) && outputs[i]
                == made[i].output_field,
    ensures
        projections_from(projections, at, fields, made, outputs, facts) matches Ok((all, output))
            ==> {
            &&& all.len() == projections.len()
            &&& output.len() == projections.len()
            &&& forall|i: int|
                0 <= i < projections.len() ==> projection_says(#[trigger] all[i], projections[i])
                    && output[i] == all[i].output_field
        },
    decreases projections.len() - at,
{
    if at < projections.len() {
        lemma_projected(projections[at], fields, facts);
        if let Ok((projection, _)) = projected(projections[at], fields, facts) {
            let longer = made.push(projection);
            let extended = outputs.push(projection.output_field);
            assert forall|i: int| 0 <= i < at + 1 implies projection_says(
                #[trigger] longer[i],
                projections[i],
            ) && extended[i] == longer[i].output_field by {
                if i < at {
                    assert(longer[i] == made[i]);
                }
            }
            lemma_projections(projections, at + 1, fields, longer, extended, facts);
        }
    }
}

proof fn lemma_sorts(
    items: Seq<ast::SortItem>,
    at: int,
    fields: Seq<Field>,
    found: Seq<SortSpec>,
)
    requires
        0 <= at <= items.len(),
        found.len() == at,
        forall|i: int| 0 <= i < at ==> sort_says(#[trigger] found[i], items[i], fields),
    ensures
        sorts_from(items, at, fields, found) matches Ok(specs) ==> {
            &&& specs.len() == items.len()
            &&& forall|i: int|
                0 <= i < items.len() ==> sort_says(#[trigger] specs[i], items[i], fields)
        },
    decreases items.len() - at,
{
    if at < items.len() {
        lemma_field_named(fields, items[at].field.name()@, 0);
        if let Ok(field) = resolved(items[at].field, fields) {
            let order = match items[at].direction {
                SortDirection::Ascending => SortOrder::Ascending,
                SortDirection::Descending => SortOrder::Descending,
            };
            let longer = found.push(SortSpec { field, order });
            if let Ok(specs) = sorts_from(items, at, fields, found) {
                assert(sort_says(longer[at], items[at], fields));
                assert forall|i: int| 0 <= i < at + 1 implies sort_says(
                    #[trigger] longer[i],
                    items[i],
                    fields,
                ) by {
                    if i < at {
                        assert(longer[i] == found[i]);
                    }
                }
                lemma_sorts(items, at + 1, fields, longer);
            }
        }
    }
}

proof fn lemma_groups(
    references: Seq<ast::FieldReference>,
    at: int,
    fields: Seq<Field>,
    found: Seq<Field>,
)
    requires
        0 <= at <= references.len(),
        found.len() == at,
        forall|i: int| 0 <= i < at ==> group_says(#[trigger] found[i], references[i], fields),
    ensures
        groups_from(references, at, fields, found) matches Ok(groups) ==> {
            &&& groups.len() == references.len()
            &&& forall|i: int|
                0 <= i < references.len() ==> group_says(
                    #[trigger] groups[i],
                    references[i],
                    fields,
                )
        },
    decreases references.len() - at,
{
    if at < references.len() {
        lemma_field_named(fields, references[at].name()@, 0);
        if let Ok(field) = resolved(references[at], fields) {
            let longer = found.push(field);
            assert forall|i: int| 0 <= i < at + 1 implies group_says(
                #[trigger] longer[i],
                references[i],
                fields,
            ) by {
                if i < at {
                    assert(longer[i] == found[i]);
                }
            }
            lemma_groups(references, at + 1, fields, longer);
        }
    }
}

proof fn lemma_measured(measure: ast::Measure, fields: Seq<Field>)
    ensures
        measured(measure, fields) matches Ok((made, _)) ==> measure_says(made, measure, fields),
{
    if let Some(reference) = measure.aggregate.argument {
        lemma_field_named(fields, reference.name()@, 0);
    }
}

proof fn lemma_measures(
    measures: Seq<ast::Measure>,
    at: int,
    fields: Seq<Field>,
    made: Seq<AggregateExpression>,
    groups: Seq<Field>,
    outputs: Seq<Field>,
)
    requires
        0 <= at <= measures.len(),
        made.len() == at,
        outputs.len() == groups.len() + at,
        forall|i: int| 0 <= i < groups.len() ==> #[trigger] outputs[i] == groups[i],
        forall|i: int|
            0 <= i < at ==> measure_says(#[trigger] made[i], measures[i], fields)
                && outputs[groups.len() + i] == made[i].output_field,
    ensures
        measures_from(measures, at, fields, made, outputs) matches Ok((all, output)) ==> {
            &&& all.len() == measures.len()
            &&& output.len() == groups.len() + measures.len()
            &&& forall|i: int| 0 <= i < groups.len() ==> #[trigger] output[i] == groups[i]
            &&& forall|i: int|
                0 <= i < measures.len() ==> measure_says(#[trigger] all[i], measures[i], fields)
                    && output[groups.len() + i] == all[i].output_field
        },
    decreases measures.len() - at,
{
    if at < measures.len() {
        lemma_measured(measures[at], fields);
        if let Ok((measure, _)) = measured(measures[at], fields) {
            let longer = made.push(measure);
            let extended = outputs.push(measure.output_field);
            assert forall|i: int| 0 <= i < at + 1 implies measure_says(
                #[trigger] longer[i],
                measures[i],
                fields,
            ) && extended[groups.len() + i] == longer[i].output_field by {
                if i < at {
                    assert(longer[i] == made[i]);
                    assert(extended[groups.len() + i] == outputs[groups.len() + i]);
                }
            }
            assert forall|i: int| 0 <= i < groups.len() implies #[trigger] extended[i]
                == groups[i] by {
                assert(extended[i] == outputs[i]);
            }
            lemma_measures(measures, at + 1, fields, longer, groups, extended);
        }
    }
}

/// A typed stage says what the stage that it was made of says.
pub proof fn stages_say_what_was_written(
    stage: ast::StageView,
    fields: Seq<Field>,
    facts: FloatFacts,
)
    ensures
        staged(stage, fields, facts) matches Ok(made) ==> stage_says(made, stage, fields),
{
    match stage.kind {
        ast::StepView::Filter(condition) => {
            typed_expressions_say_what_was_written(condition, fields, None, facts);
        },
        ast::StepView::Project(projections) => {
            lemma_projections(projections, 0, fields, Seq::empty(), Seq::empty(), facts);
        },
        ast::StepView::Sort(items) => {
            lemma_sorts(items, 0, fields, Seq::empty());
        },
        ast::StepView::Take(_) => {},
        ast::StepView::Summarize { measures, group_by } => {
            lemma_groups(group_by, 0, fields, Seq::empty());
            if let Ok(groups) = groups_from(group_by, 0, fields, Seq::empty()) {
                lemma_measures(measures, 0, fields, Seq::empty(), groups, groups);
                if let Ok((made, output)) = measures_from(
                    measures,
                    0,
                    fields,
                    Seq::empty(),
                    groups,
                ) {
                    assert forall|i: int| 0 <= i < group_by.len() implies group_says(
                        #[trigger] groups[i],
                        group_by[i],
                        fields,
                    ) && output[i] == groups[i] by {
                        assert(output[i] == groups[i]);
                    }
                }
            }
        },
    }
}

/// The fields that a stage sees: those of the source, or those that the stage before it gives.
pub open spec fn seen(relation: Seq<Field>, stages: Seq<StageView>, at: int) -> Seq<Field> {
    if at == 0 {
        relation
    } else {
        stages[at - 1].output
    }
}

proof fn lemma_stages(
    stages: Seq<ast::StageView>,
    at: int,
    relation: Seq<Field>,
    summarized: bool,
    made: Seq<StageView>,
    facts: FloatFacts,
)
    requires
        0 <= at <= stages.len(),
        made.len() == at,
        forall|i: int|
            0 <= i < at ==> stage_says(#[trigger] made[i], stages[i], seen(relation, made, i)),
        summarized <==> exists|i: int| 0 <= i < at && (#[trigger] stages[i]).kind is Summarize,
        forall|i: int, j: int|
            0 <= i < j < at && (#[trigger] stages[i]).kind is Summarize ==> (
            #[trigger] stages[j]).kind is Sort || stages[j].kind is Take,
    ensures
        stages_made(
            stages,
            at,
            seen(relation, made, at),
            summarized,
            made,
            facts,
        ) matches Ok(all) ==> {
            &&& all.len() == stages.len()
            &&& forall|i: int|
                0 <= i < stages.len() ==> stage_says(
                    #[trigger] all[i],
                    stages[i],
                    seen(relation, all, i),
                )
            &&& forall|i: int, j: int|
                0 <= i < j < stages.len() && (#[trigger] stages[i]).kind is Summarize ==> (
                #[trigger] stages[j]).kind is Sort || stages[j].kind is Take
        },
    decreases stages.len() - at,
{
    if at < stages.len() {
        let fields = seen(relation, made, at);
        stages_say_what_was_written(stages[at], fields, facts);
        if let Ok(stage) = staged(stages[at], fields, facts) {
            let longer = made.push(stage);
            let now = summarized || stages[at].kind is Summarize;
            assert(seen(relation, longer, at + 1) == stage.output);
            assert forall|i: int| 0 <= i < at + 1 implies stage_says(
                #[trigger] longer[i],
                stages[i],
                seen(relation, longer, i),
            ) by {
                assert(seen(relation, longer, i) == seen(relation, made, i));
                if i < at {
                    assert(longer[i] == made[i]);
                }
            }
            if now {
                if stages[at].kind is Summarize {
                    assert(0 <= at < at + 1 && stages[at].kind is Summarize);
                }
            }
            if !(summarized && !(stages[at].kind is Sort || stages[at].kind is Take)) {
                lemma_stages(stages, at + 1, relation, now, longer, facts);
            }
        }
    }
}

/// The length of a unit of time in milliseconds.
pub open spec fn unit_length(unit: TimeUnit) -> int {
    let second = 1000int;
    match unit {
        TimeUnit::Second => second,
        TimeUnit::Minute => 60 * second,
        TimeUnit::Hour => 60 * (60 * second),
        TimeUnit::Day => 24 * (60 * (60 * second)),
    }
}

/// Whether a step leads from one instant to another: a truncation to the last whole unit that is not
/// later, a shift its number of units later or earlier.
pub open spec fn leads(step: TimeOperationKind, from: int, to: int) -> bool {
    match step {
        TimeOperationKind::Truncate(unit) => {
            &&& to % unit_length(unit) == 0
            &&& to <= from < to + unit_length(unit)
        },
        TimeOperationKind::Shift { direction: TimeDirection::Forward, magnitude, unit } => to - from
            == magnitude.0 * unit_length(unit),
        TimeOperationKind::Shift { direction: TimeDirection::Backward, magnitude, unit } => from
            - to == magnitude.0 * unit_length(unit),
    }
}

/// Whether instants are those that steps lead through, one after the other, from a first.
pub open spec fn leads_through(
    steps: Seq<TimeOperation>,
    instants: Seq<i64>,
    first: i64,
) -> bool {
    &&& instants.len() == steps.len() + 1
    &&& instants[0] == first
    &&& forall|i: int|
        0 <= i < steps.len() ==> leads(
            (#[trigger] steps[i]).kind,
            instants[i] as int,
            instants[i + 1] as int,
        )
}

proof fn lemma_stepped(milliseconds: int, kind: TimeOperationKind)
    ensures
        leads(kind, milliseconds, stepped(milliseconds, kind)),
{
    if let TimeOperationKind::Truncate(unit) = kind {
        assert(unit_length(unit) == unit_milliseconds(unit));
        truncation_finds_the_unit(milliseconds, unit);
    } else if let TimeOperationKind::Shift { magnitude, unit, .. } = kind {
        assert(unit_length(unit) == unit_milliseconds(unit));
    }
}

proof fn lemma_steps(steps: Seq<TimeOperation>, at: int, milliseconds: i64) -> (instants: Seq<i64>)
    requires
        0 <= at <= steps.len(),
        steps_from(steps, at, milliseconds) is Some,
    ensures
        instants.len() == steps.len() - at + 1,
        instants[0] == milliseconds,
        instants.last() == steps_from(steps, at, milliseconds)->0,
        forall|i: int|
            at <= i < steps.len() ==> leads(
                (#[trigger] steps[i]).kind,
                instants[i - at] as int,
                instants[i - at + 1] as int,
            ),
    decreases steps.len() - at,
{
    if at == steps.len() {
        seq![milliseconds]
    } else {
        let next = stepped(milliseconds as int, steps[at].kind) as i64;
        lemma_stepped(milliseconds as int, steps[at].kind);
        let rest = lemma_steps(steps, at + 1, next);
        let instants = seq![milliseconds] + rest;
        assert forall|i: int| at <= i < steps.len() implies leads(
            (#[trigger] steps[i]).kind,
            instants[i - at] as int,
            instants[i - at + 1] as int,
        ) by {
            assert(instants[i - at + 1] == rest[i - at]);
            if i > at {
                assert(instants[i - at] == rest[i - at - 1]);
            }
        }
        instants
    }
}

/// Whether a bound is an instant: now, the whole millisecond that a date-time denotes, or where the
/// steps of a relative time lead from now.
pub open spec fn bound_is(bound: TimeView, now: UtcInstant, instant: UtcInstant) -> bool {
    match bound.kind {
        BoundView::Now => instant == now,
        BoundView::Datetime(text) => {
            &&& rfc3339_instant(text.value@) matches Some((milliseconds, nanosecond))
            &&& milliseconds == instant.0
            &&& nanosecond % 1_000_000 == 0
        },
        BoundView::Relative(steps) => exists|instants: Seq<i64>| #[trigger]
            leads_through(steps, instants, now.0) && instants.last() == instant.0,
    }
}

/// A bound that is accepted is the instant that it names.
pub proof fn bounds_are_the_instants_they_name(bound: TimeView, now: UtcInstant)
    ensures
        bound_instant(bound, now) matches Ok(instant) ==> bound_is(bound, now, instant),
{
    if let BoundView::Relative(steps) = bound.kind {
        if steps_from(steps, 0, now.0) is Some {
            let instants = lemma_steps(steps, 0, now.0);
            assert(leads_through(steps, instants, now.0));
        }
    }
}

/// A time range begins at the bound that the source gives, or else at that of the request, ends at
/// the other in the same way, and is not empty.
pub proof fn ranges_lie_between_their_bounds(source: ast::SourceView, context: QueryTimeContext)
    ensures
        range_of_source(source, context) matches Ok((start, end)) ==> {
            &&& start.0 < end.0
            &&& match source.start_inclusive {
                Some(bound) => bound_is(bound, context.reference_time, start),
                None => context.request_start_inclusive == Some(start),
            }
            &&& match source.end_exclusive {
                Some(bound) => bound_is(bound, context.reference_time, end),
                None => context.request_end_exclusive == Some(end),
            }
        },
{
    if let Some(bound) = source.start_inclusive {
        bounds_are_the_instants_they_name(bound, context.reference_time);
    }
    if let Some(bound) = source.end_exclusive {
        bounds_are_the_instants_they_name(bound, context.reference_time);
    }
}

/// A pipeline reads the source that the query names, over the time range that the query asks for,
/// with the fields of the active schema, and each of its stages says what that stage of the query
/// says of the fields that it sees. Behind a summary only sorts and limits stand.
pub proof fn pipelines_say_what_was_written(
    query: ast::QueryView,
    source: Option<catalog::Source>,
    context: QueryTimeContext,
    facts: FloatFacts,
)
    ensures
        analyzed(query, source, context, facts) matches Ok((pipeline, _)) ==> {
            &&& source matches Some(found)
            &&& found.name@ == query.source.name.value@
            &&& pipeline.source.source_id == found.id
            &&& pipeline.source.name@ == found.name@
            &&& pipeline.source.active_schema_id == found.active_schema_id
            &&& range_of_source(query.source, context) == Ok::<
                (UtcInstant, UtcInstant),
                SemanticError,
            >((pipeline.start_inclusive, pipeline.end_exclusive))
            &&& exists|schema: catalog::Schema|
                {
                    &&& #[trigger] found.schemas@.contains(schema)
                    &&& schema.id == found.active_schema_id
                    &&& pipeline.relation.len() == schema.fields@.len()
                    &&& forall|i: int|
                        0 <= i < schema.fields@.len() ==> same_field(
                            #[trigger] pipeline.relation[i],
                            schema.fields@[i],
                        )
                }
            &&& pipeline.stages.len() == query.stages.len()
            &&& forall|i: int|
                0 <= i < query.stages.len() ==> stage_says(
                    #[trigger] pipeline.stages[i],
                    query.stages[i],
                    seen(pipeline.relation, pipeline.stages, i),
                )
            &&& forall|i: int, j: int|
                0 <= i < j < query.stages.len() && (#[trigger] query.stages[i]).kind is Summarize
                    ==> (#[trigger] query.stages[j]).kind is Sort || query.stages[j].kind is Take
        },
{
    if let Some((found, schema)) = source_named(source, query.source.name.value@) {
        lemma_schema_place(found.schemas@, found.active_schema_id, 0);
        let relation = schema_relation(schema);
        lemma_stages(query.stages, 0, relation, false, Seq::empty(), facts);
        assert(found.schemas@.contains(schema));
        assert forall|i: int| 0 <= i < schema.fields@.len() implies same_field(
            #[trigger] relation[i],
            schema.fields@[i],
        ) by {}
    }
}

/// Whether a field of a relation is a stored field.
pub open spec fn same_field(field: Field, stored: catalog::Field) -> bool {
    &&& field.name@ == stored.name@
    &&& field.logical_type == stored.logical_type
    &&& field.nullability == stored.nullability
    &&& match field.origin {
        FieldOrigin::Schema { field_id } => field_id == stored.id && stored.role
            == FieldRole::Data,
        FieldOrigin::System { field_id } => field_id == stored.id && stored.role
            != FieldRole::Data,
        FieldOrigin::Derived { .. } => false,
    }
}

proof fn lemma_schema_place(
    schemas: Seq<catalog::Schema>,
    id: crate::identity::SchemaId,
    from: int,
)
    requires
        0 <= from,
    ensures
        catalog::schema_place(schemas, id, from) matches Some(place) ==> from <= place
            < schemas.len() && schemas[place].id == id && schemas.contains(schemas[place]),
    decreases schemas.len() - from,
{
    if from < schemas.len() && schemas[from].id != id {
        lemma_schema_place(schemas, id, from + 1);
    }
}

proof fn lemma_one_way(step: TimeOperationKind, from: int, to: int)
    requires
        leads(step, from, to),
    ensures
        stepped(from, step) == to,
{
    if let TimeOperationKind::Truncate(unit) = step {
        let length = unit_length(unit);
        assert(length == unit_milliseconds(unit));
        truncation_finds_the_unit(from, unit);
        let found = stepped(from, step);
        match unit {
            TimeUnit::Second => {},
            TimeUnit::Minute => {},
            TimeUnit::Hour => {},
            TimeUnit::Day => {},
        }
        assert(found == to);
    } else if let TimeOperationKind::Shift { magnitude, unit, .. } = step {
        assert(unit_length(unit) == unit_milliseconds(unit));
    }
}

proof fn lemma_led(steps: Seq<TimeOperation>, instants: Seq<i64>, first: i64, at: int)
    requires
        leads_through(steps, instants, first),
        0 <= at <= steps.len(),
    ensures
        steps_from(steps, at, instants[at]) == Some(instants.last()),
    decreases steps.len() - at,
{
    if at < steps.len() {
        lemma_one_way(steps[at].kind, instants[at] as int, instants[at + 1] as int);
        lemma_led(steps, instants, first, at + 1);
    }
}

/// Each instant that a bound names is accepted for it.
pub proof fn named_instants_are_accepted(bound: TimeView, now: UtcInstant, instant: UtcInstant)
    requires
        bound_is(bound, now, instant),
    ensures
        bound_instant(bound, now) == Ok::<UtcInstant, SemanticError>(instant),
{
    if let BoundView::Relative(steps) = bound.kind {
        let instants = choose|instants: Seq<i64>| #[trigger]
            leads_through(steps, instants, now.0) && instants.last() == instant.0;
        lemma_led(steps, instants, now.0, 0);
    }
}

/// A time range is accepted if each of its bounds is named by the source or, where the source names
/// none, given by the request, and it does not end before it has begun.
pub proof fn ranges_with_bounds_are_accepted(
    source: ast::SourceView,
    context: QueryTimeContext,
    start: UtcInstant,
    end: UtcInstant,
)
    requires
        match source.start_inclusive {
            Some(bound) => bound_is(bound, context.reference_time, start),
            None => context.request_start_inclusive == Some(start),
        },
        match source.end_exclusive {
            Some(bound) => bound_is(bound, context.reference_time, end),
            None => context.request_end_exclusive == Some(end),
        },
    ensures
        start.0 < end.0 ==> range_of_source(source, context) == Ok::<
            (UtcInstant, UtcInstant),
            SemanticError,
        >((start, end)),
        start.0 >= end.0 ==> range_of_source(source, context) is Err,
{
    if let Some(bound) = source.start_inclusive {
        named_instants_are_accepted(bound, context.reference_time, start);
    }
    if let Some(bound) = source.end_exclusive {
        named_instants_are_accepted(bound, context.reference_time, end);
    }
}

proof fn lemma_resolved(reference: ast::FieldReference, fields: Seq<Field>)
    ensures
        resolved(reference, fields) is Ok <==> !names_no_field(fields, reference.name()@),
{
    lemma_first_named(fields, reference.name()@, 0);
    if let Ok(field) = resolved(reference, fields) {
        let i = choose|i: int|
            #![trigger fields[i]]
            0 <= i < fields.len() && fields[i] == field && forall|j: int|
                0 <= j < i ==> (#[trigger] fields[j]).name@ != reference.name()@;
        assert(fields[i].name@ == reference.name()@);
    }
}

proof fn lemma_sorts_accepted(
    items: Seq<ast::SortItem>,
    at: int,
    fields: Seq<Field>,
    found: Seq<SortSpec>,
)
    requires
        0 <= at <= items.len(),
    ensures
        sorts_from(items, at, fields, found) is Ok <==> forall|i: int|
            at <= i < items.len() ==> !names_no_field(fields, (#[trigger] items[i]).field.name()@),
    decreases items.len() - at,
{
    if at < items.len() {
        lemma_resolved(items[at].field, fields);
        if let Ok(field) = resolved(items[at].field, fields) {
            let order = match items[at].direction {
                SortDirection::Ascending => SortOrder::Ascending,
                SortDirection::Descending => SortOrder::Descending,
            };
            lemma_sorts_accepted(items, at + 1, fields, found.push(SortSpec { field, order }));
        }
    }
}

proof fn lemma_groups_accepted(
    references: Seq<ast::FieldReference>,
    at: int,
    fields: Seq<Field>,
    found: Seq<Field>,
)
    requires
        0 <= at <= references.len(),
        found.len() == at,
        forall|i: int| 0 <= i < at ==> (#[trigger] found[i]).name@ == references[i].name()@,
    ensures
        groups_from(references, at, fields, found) is Ok <==> {
            &&& forall|i: int|
                at <= i < references.len() ==> !names_no_field(
                    fields,
                    (#[trigger] references[i]).name()@,
                )
            &&& forall|i: int, j: int|
                #![trigger references[i], references[j]]
                0 <= i < j < references.len() && at <= j ==> references[i].name()@
                    != references[j].name()@
        },
    decreases references.len() - at,
{
    if at < references.len() {
        let reference = references[at];
        lemma_resolved(reference, fields);
        lemma_field_named(fields, reference.name()@, 0);
        if let Ok(field) = resolved(reference, fields) {
            if has_name(found, field.name@) {
                let i = choose|i: int| 0 <= i < found.len() && (#[trigger] found[i]).name@
                    == field.name@;
                assert(references[i].name()@ == references[at].name()@);
            } else {
                let longer = found.push(field);
                assert forall|i: int| 0 <= i < at + 1 implies (#[trigger] longer[i]).name@
                    == references[i].name()@ by {
                    if i < at {
                        assert(longer[i] == found[i]);
                    }
                }
                lemma_groups_accepted(references, at + 1, fields, longer);
                assert forall|i: int|
                    0 <= i < at implies (#[trigger] references[i]).name()@ != reference.name()@ by {
                    assert(found[i].name@ == references[i].name()@);
                }
            }
        }
    }
}

/// The name of the output of a projection that is accepted.
pub open spec fn output_name(
    projection: ast::Projection,
    fields: Seq<Field>,
    facts: FloatFacts,
) -> Seq<char> {
    match projected(projection, fields, facts) {
        Ok((made, _)) => made.output_field.name@,
        Err(_) => Seq::empty(),
    }
}

proof fn lemma_projections_accepted(
    projections: Seq<ast::Projection>,
    at: int,
    fields: Seq<Field>,
    made: Seq<Projection>,
    outputs: Seq<Field>,
    facts: FloatFacts,
)
    requires
        0 <= at <= projections.len(),
        outputs.len() == at,
        forall|i: int|
            0 <= i < at ==> (#[trigger] outputs[i]).name@ == output_name(
                projections[i],
                fields,
                facts,
            ),
    ensures
        projections_from(projections, at, fields, made, outputs, facts) is Ok <==> {
            &&& forall|i: int|
                at <= i < projections.len() ==> projected(#[trigger] projections[i], fields, facts)
                    is Ok
            &&& forall|i: int, j: int|
                #![trigger projections[i], projections[j]]
                0 <= i < j < projections.len() && at <= j ==> output_name(
                    projections[i],
                    fields,
                    facts,
                ) != output_name(projections[j], fields, facts)
        },
    decreases projections.len() - at,
{
    if at < projections.len() {
        if let Ok((projection, _)) = projected(projections[at], fields, facts) {
            let field = projection.output_field;
            assert(output_name(projections[at], fields, facts) == field.name@);
            if has_name(outputs, field.name@) {
                let i = choose|i: int| 0 <= i < outputs.len() && (#[trigger] outputs[i]).name@
                    == field.name@;
                assert(output_name(projections[i], fields, facts) == output_name(
                    projections[at],
                    fields,
                    facts,
                ));
            } else {
                let longer = outputs.push(field);
                assert forall|i: int| 0 <= i < at + 1 implies (#[trigger] longer[i]).name@
                    == output_name(projections[i], fields, facts) by {
                    if i < at {
                        assert(longer[i] == outputs[i]);
                    }
                }
                lemma_projections_accepted(
                    projections,
                    at + 1,
                    fields,
                    made.push(projection),
                    longer,
                    facts,
                );
                assert forall|i: int| 0 <= i < at implies output_name(
                    #[trigger] projections[i],
                    fields,
                    facts,
                ) != field.name@ by {
                    assert(outputs[i].name@ == output_name(projections[i], fields, facts));
                }
            }
        }
    }
}

/// A filter is accepted exactly if its expression is, a projection if its expressions are and no two
/// of its outputs have the same name, a sort if the fields that it names are there, and a limit if it
/// is not negative and not beyond what a signed integer holds.
pub proof fn sound_stages_are_accepted(
    stage: ast::StageView,
    fields: Seq<Field>,
    facts: FloatFacts,
)
    ensures
        match stage.kind {
            ast::StepView::Filter(expression) => staged(stage, fields, facts) is Ok <==> typed(
                expression,
                fields,
                None,
                facts,
            ) is Ok,
            ast::StepView::Project(projections) => staged(stage, fields, facts) is Ok <==> {
                &&& forall|i: int|
                    0 <= i < projections.len() ==> projected(
                        #[trigger] projections[i],
                        fields,
                        facts,
                    ) is Ok
                &&& forall|i: int, j: int|
                    #![trigger projections[i], projections[j]]
                    0 <= i < j < projections.len() ==> output_name(projections[i], fields, facts)
                        != output_name(projections[j], fields, facts)
            },
            ast::StepView::Sort(items) => staged(stage, fields, facts) is Ok <==> forall|i: int|
                0 <= i < items.len() ==> !names_no_field(
                    fields,
                    (#[trigger] items[i]).field.name()@,
                ),
            ast::StepView::Take(value) => staged(stage, fields, facts) is Ok <==> value.magnitude
                <= i64::MAX && (!(value.sign is Negative) || value.magnitude == 0),
            ast::StepView::Summarize { .. } => true,
        },
{
    match stage.kind {
        ast::StepView::Project(projections) => {
            lemma_projections_accepted(
                projections,
                0,
                fields,
                Seq::empty(),
                Seq::empty(),
                facts,
            );
        },
        ast::StepView::Sort(items) => {
            lemma_sorts_accepted(items, 0, fields, Seq::empty());
        },
        _ => {},
    }
}

/// The name that a measure is given.
pub open spec fn measure_name(measure: ast::Measure) -> Seq<char> {
    match measure.alias {
        Some(alias) => alias.value@,
        None => Seq::empty(),
    }
}

proof fn lemma_measures_accepted(
    measures: Seq<ast::Measure>,
    at: int,
    fields: Seq<Field>,
    made: Seq<AggregateExpression>,
    groups: Seq<Field>,
    outputs: Seq<Field>,
)
    requires
        0 <= at <= measures.len(),
        outputs.len() == groups.len() + at,
        forall|i: int| 0 <= i < groups.len() ==> #[trigger] outputs[i] == groups[i],
        forall|i: int|
            groups.len() <= i < outputs.len() ==> (#[trigger] outputs[i]).name@ == measure_name(
                measures[i - groups.len()],
            ),
    ensures
        measures_from(measures, at, fields, made, outputs) is Ok <==> {
            &&& forall|i: int|
                at <= i < measures.len() ==> measured(#[trigger] measures[i], fields) is Ok
                    && !has_name(groups, measure_name(measures[i]))
            &&& forall|i: int, j: int|
                #![trigger measures[i], measures[j]]
                0 <= i < j < measures.len() && at <= j ==> measure_name(measures[i])
                    != measure_name(measures[j])
        },
    decreases measures.len() - at,
{
    if at < measures.len() {
        if let Ok((measure, _)) = measured(measures[at], fields) {
            let field = measure.output_field;
            let name = measure_name(measures[at]);
            assert(field.name@ == name);
            if has_name(outputs, name) {
                let i = choose|i: int| 0 <= i < outputs.len() && (#[trigger] outputs[i]).name@
                    == name;
                if i < groups.len() {
                    assert(groups[i].name@ == name);
                    assert(has_name(groups, measure_name(measures[at])));
                } else {
                    assert(measure_name(measures[i - groups.len()]) == measure_name(measures[at]));
                }
            } else {
                let longer = outputs.push(field);
                assert forall|i: int| groups.len() <= i < longer.len() implies (
                #[trigger] longer[i]).name@ == measure_name(measures[i - groups.len()]) by {
                    if i < outputs.len() {
                        assert(longer[i] == outputs[i]);
                    }
                }
                assert forall|i: int| 0 <= i < groups.len() implies #[trigger] longer[i]
                    == groups[i] by {
                    assert(longer[i] == outputs[i]);
                }
                lemma_measures_accepted(
                    measures,
                    at + 1,
                    fields,
                    made.push(measure),
                    groups,
                    longer,
                );
                assert forall|i: int| 0 <= i < at implies measure_name(#[trigger] measures[i])
                    != name by {
                    assert(outputs[groups.len() + i].name@ == measure_name(measures[i]));
                }
                if has_name(groups, name) {
                    let i = choose|i: int| 0 <= i < groups.len() && (#[trigger] groups[i]).name@
                        == name;
                    assert(outputs[i].name@ == name);
                }
            }
        }
    }
}

/// A measure is accepted exactly if it has a name, the field that it is of is there, and its function
/// takes values of that field, or counts.
pub proof fn named_measures_are_accepted(measure: ast::Measure, fields: Seq<Field>)
    ensures
        measured(measure, fields) is Ok <==> {
            &&& measure.alias is Some
            &&& match measure.aggregate.argument {
                None => measure.aggregate.function is Count,
                Some(reference) => {
                    &&& !names_no_field(fields, reference.name()@)
                    &&& aggregate_result(
                        pipeline_function(measure.aggregate.function),
                        Some(resolved(reference, fields)->Ok_0),
                        measure.aggregate.span,
                    ) is Ok
                },
            }
        },
{
    if let Some(reference) = measure.aggregate.argument {
        lemma_resolved(reference, fields);
    }
}

/// A summary is accepted exactly if its measures are, the fields that it groups by are there, and no
/// two of its outputs have the same name.
pub proof fn sound_summaries_are_accepted(
    measures: Seq<ast::Measure>,
    group_by: Seq<ast::FieldReference>,
    fields: Seq<Field>,
)
    ensures
        summarized(measures, group_by, fields) is Ok <==> {
            &&& forall|i: int|
                0 <= i < group_by.len() ==> !names_no_field(
                    fields,
                    (#[trigger] group_by[i]).name()@,
                )
            &&& forall|i: int| 0 <= i < measures.len() ==> measured(#[trigger] measures[i], fields)
                is Ok
            &&& forall|i: int, j: int|
                #![trigger group_by[i], group_by[j]]
                0 <= i < j < group_by.len() ==> group_by[i].name()@ != group_by[j].name()@
            &&& forall|i: int, j: int|
                #![trigger measures[i], measures[j]]
                0 <= i < j < measures.len() ==> measure_name(measures[i]) != measure_name(
                    measures[j],
                )
            &&& forall|i: int, j: int|
                #![trigger group_by[i], measures[j]]
                0 <= i < group_by.len() && 0 <= j < measures.len() ==> group_by[i].name()@
                    != measure_name(measures[j])
        },
{
    lemma_groups_accepted(group_by, 0, fields, Seq::empty());
    lemma_groups(group_by, 0, fields, Seq::empty());
    if let Ok(groups) = groups_from(group_by, 0, fields, Seq::empty()) {
        lemma_measures_accepted(measures, 0, fields, Seq::empty(), groups, groups);
        assert forall|i: int| 0 <= i < group_by.len() implies (#[trigger] groups[i]).name@
            == group_by[i].name()@ by {
            assert(group_says(groups[i], group_by[i], fields));
        }
        assert forall|j: int| 0 <= j < measures.len() implies (has_name(
            groups,
            measure_name(#[trigger] measures[j]),
        ) <==> exists|i: int|
            #![trigger group_by[i]]
            0 <= i < group_by.len() && group_by[i].name()@ == measure_name(measures[j])) by {
            let name = measure_name(measures[j]);
            if has_name(groups, name) {
                let i = choose|i: int| 0 <= i < groups.len() && (#[trigger] groups[i]).name@
                    == name;
                assert(group_by[i].name()@ == name);
            }
            if exists|i: int|
                #![trigger group_by[i]]
                0 <= i < group_by.len() && group_by[i].name()@ == name {
                let i = choose|i: int|
                    #![trigger group_by[i]]
                    0 <= i < group_by.len() && group_by[i].name()@ == name;
                assert(groups[i].name@ == name);
            }
        }
    }
}

/// Whether a stage is made of the stage at its place and the fields that the one before it gives.
pub open spec fn is_link(
    stages: Seq<ast::StageView>,
    fields: Seq<Field>,
    facts: FloatFacts,
    chain: Seq<StageView>,
    at: int,
) -> bool {
    staged(
        stages[at],
        if at == 0 {
            fields
        } else {
            chain[at - 1].output
        },
        facts,
    ) == Ok::<StageView, SemanticError>(chain[at])
}

proof fn lemma_chain(
    stages: Seq<ast::StageView>,
    fields: Seq<Field>,
    facts: FloatFacts,
    chain: Seq<StageView>,
    at: int,
    summarized: bool,
)
    requires
        chain.len() == stages.len(),
        forall|i: int|
            0 <= i < stages.len() ==> #[trigger] is_link(stages, fields, facts, chain, i),
        forall|i: int, j: int|
            #![trigger stages[i], stages[j]]
            0 <= i < j < stages.len() && stages[i].kind is Summarize ==> stages[j].kind is Sort
                || stages[j].kind is Take,
        0 <= at <= stages.len(),
        summarized ==> exists|i: int|
            #![trigger stages[i]]
            0 <= i < at && stages[i].kind is Summarize,
    ensures
        stages_made(
            stages,
            at,
            if at == 0 {
                fields
            } else {
                chain[at - 1].output
            },
            summarized,
            chain.subrange(0, at),
            facts,
        ) == Ok::<Seq<StageView>, SemanticError>(chain),
    decreases stages.len() - at,
{
    if at == stages.len() {
        assert(chain.subrange(0, at) =~= chain);
    } else {
        assert(is_link(stages, fields, facts, chain, at));
        if summarized {
            let i = choose|i: int|
                #![trigger stages[i]]
                0 <= i < at && stages[i].kind is Summarize;
            assert(stages[at].kind is Sort || stages[at].kind is Take);
        }
        let next = summarized || stages[at].kind is Summarize;
        if stages[at].kind is Summarize {
            assert(0 <= at < at + 1 && stages[at].kind is Summarize);
        }
        lemma_chain(stages, fields, facts, chain, at + 1, next);
        assert(chain.subrange(0, at).push(chain[at]) =~= chain.subrange(0, at + 1));
    }
}

/// Stages are accepted if each of them is, with the fields that the one before it gives, and behind a
/// summary only sorts and limits stand.
pub proof fn chained_stages_are_accepted(
    stages: Seq<ast::StageView>,
    fields: Seq<Field>,
    facts: FloatFacts,
    chain: Seq<StageView>,
)
    requires
        chain.len() == stages.len(),
        forall|i: int|
            0 <= i < stages.len() ==> #[trigger] is_link(stages, fields, facts, chain, i),
        forall|i: int, j: int|
            #![trigger stages[i], stages[j]]
            0 <= i < j < stages.len() && stages[i].kind is Summarize ==> stages[j].kind is Sort
                || stages[j].kind is Take,
    ensures
        stages_made(stages, 0, fields, false, Seq::empty(), facts) == Ok::<
            Seq<StageView>,
            SemanticError,
        >(chain),
{
    lemma_chain(stages, fields, facts, chain, 0, false);
    assert(chain.subrange(0, 0) =~= Seq::empty());
}

} // verus!
