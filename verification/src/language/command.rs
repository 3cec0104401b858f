//! Typed stages from the stages of a query.

use vstd::prelude::*;

use crate::catalog::{LogicalType, Nullability};
use crate::language::ast;
use crate::language::ast::{NumericSign, SignedIntegerLiteral, SortDirection};
use crate::language::error::{diagnostic_views, Diagnostic, DiagnosticView, SemanticError};
use crate::language::expression::{
    asks_only_for_unknowns, convert_expression, convert_field, reference_warnings, resolve_field,
    resolved, typed, typed_field, typing_asks_only_for_unknowns, warn_of_expression,
    warn_of_reference, warnings_of,
};
use crate::language::floats::FloatFacts;
use crate::language::ir::{
    AggregateExpression, AggregateFunction, ExpressionKind, Field, FieldOrigin, Projection,
    Relation, SortOrder, SortSpec, Stage, StageKind, StageView, StepView,
};
use crate::language::literal::{has_numeric, is_numeric};
use crate::language::span::Span;

verus! {

/// Whether a field with this name is among some fields.
pub open spec fn has_name(fields: Seq<Field>, name: Seq<char>) -> bool {
    exists|i: int| 0 <= i < fields.len() && (#[trigger] fields[i]).name@ == name
}

/// Whether no two fields have the same name.
pub open spec fn unique_names(fields: Seq<Field>) -> bool {
    forall|i: int, j: int|
        0 <= i < j < fields.len() ==> (#[trigger] fields[i]).name@ != (#[trigger] fields[j]).name@
}

fn name_occurs(fields: &Vec<Field>, name: &String) -> (r: bool)
    ensures
        r == has_name(fields@, name@),
{
    let mut index: usize = 0;
    while index < fields.len()
        invariant
            index <= fields@.len(),
            forall|i: int| 0 <= i < index ==> (#[trigger] fields@[i]).name@ != name@,
        decreases fields@.len() - index,
    {
        if fields[index].name == *name {
            return true;
        }
        index = index + 1;
    }
    false
}

/// An output field, behind those before it, unless one of them has its name.
pub open spec fn with_output(outputs: Seq<Field>, field: Field, span: Span) -> Result<
    Seq<Field>,
    SemanticError,
> {
    if has_name(outputs, field.name@) {
        Err(SemanticError::DuplicateOutputField { name: field.name, span })
    } else {
        Ok(outputs.push(field))
    }
}

fn ensure_unique_output(outputs: &Vec<Field>, field: &Field, span: Span) -> (r: Result<
    (),
    SemanticError,
>)
    ensures
        match r {
            Ok(_) => with_output(outputs@, *field, span) == Ok::<Seq<Field>, SemanticError>(
                outputs@.push(*field),
            ),
            Err(e) => with_output(outputs@, *field, span) == Err::<Seq<Field>, SemanticError>(e),
        },
{
    if name_occurs(outputs, &field.name) {
        Err(SemanticError::DuplicateOutputField { name: field.name.clone(), span })
    } else {
        Ok(())
    }
}

/// A field that a query declares.
pub open spec fn derived(
    name: String,
    logical_type: LogicalType,
    nullability: Nullability,
    declaration_span: Span,
) -> Field {
    Field { name, logical_type, nullability, origin: FieldOrigin::Derived { declaration_span } }
}

/// An output field of a projection with the expression that gives it, and where it is named.
pub open spec fn projected(
    projection: ast::Projection,
    fields: Seq<Field>,
    facts: FloatFacts,
) -> Result<(Projection, Span), SemanticError> {
    match projection {
        ast::Projection::Field(reference) => match typed_field(reference, fields) {
            Err(e) => Err(e),
            Ok(expression) => {
                let output_field = match expression.kind {
                    ExpressionKind::Field(field) => field,
                    _ => derived(
                        reference.name(),
                        expression.logical_type,
                        expression.nullability,
                        reference.place(),
                    ),
                };
                Ok((Projection { expression, output_field }, reference.place()))
            },
        },
        ast::Projection::Computed(computed) => match typed(computed.expression, fields, None, facts) {
            Err(e) => Err(e),
            Ok(expression) => {
                let output_field = derived(
                    computed.alias.value,
                    expression.logical_type,
                    expression.nullability,
                    computed.alias.span,
                );
                Ok((Projection { expression, output_field }, computed.alias.span))
            },
        },
        ast::Projection::Unaliased(expression) => Err(
            SemanticError::ProjectionAliasRequired { span: expression.span },
        ),
    }
}

fn convert_projection(
    projection: &ast::Projection,
    input: &Relation,
    facts: &FloatFacts,
) -> (r: Result<(Projection, Span), SemanticError>)
    ensures
        r == projected(*projection, input.fields@, *facts),
{
    match projection {
        ast::Projection::Field(reference) => match convert_field(reference, input) {
            Err(e) => Err(e),
            Ok(expression) => {
                let output_field: Field = match &expression.kind {
                    ExpressionKind::Field(field) => field.clone(),
                    _ => Field {
                        name: reference.to_name(),
                        logical_type: expression.logical_type,
                        nullability: expression.nullability,
                        origin: FieldOrigin::Derived { declaration_span: reference.span() },
                    },
                };
                Ok((Projection { expression, output_field }, reference.span()))
            },
        },
        ast::Projection::Computed(computed) => match convert_expression(
            &computed.expression,
            input,
            facts,
        ) {
            Err(e) => Err(e),
            Ok(expression) => {
                let output_field: Field = Field {
                    name: computed.alias.value.clone(),
                    logical_type: expression.logical_type,
                    nullability: expression.nullability,
                    origin: FieldOrigin::Derived { declaration_span: computed.alias.span },
                };
                Ok((Projection { expression, output_field }, computed.alias.span))
            },
        },
        ast::Projection::Unaliased(expression) => Err(
            SemanticError::ProjectionAliasRequired { span: expression.span },
        ),
    }
}

/// The projections from `at` on, behind those that were made, with their output fields.
pub open spec fn projections_from(
    projections: Seq<ast::Projection>,
    at: int,
    fields: Seq<Field>,
    made: Seq<Projection>,
    outputs: Seq<Field>,
    facts: FloatFacts,
) -> Result<(Seq<Projection>, Seq<Field>), SemanticError>
    decreases projections.len() - at,
{
    if !(0 <= at < projections.len()) {
        Ok((made, outputs))
    } else {
        match projected(projections[at], fields, facts) {
            Err(e) => Err(e),
            Ok((projection, span)) => match with_output(outputs, projection.output_field, span) {
                Err(e) => Err(e),
                Ok(extended) => projections_from(
                    projections,
                    at + 1,
                    fields,
                    made.push(projection),
                    extended,
                    facts,
                ),
            },
        }
    }
}

/// Makes a typed projection.
pub fn convert_project(
    projections: &Vec<ast::Projection>,
    input: &Relation,
    facts: &FloatFacts,
) -> (r: Result<(Vec<Projection>, Relation), SemanticError>)
    ensures
        match r {
            Ok((made, output)) => projections_from(
                projections@,
                0,
                input.fields@,
                Seq::empty(),
                Seq::empty(),
                *facts,
            ) == Ok::<(Seq<Projection>, Seq<Field>), SemanticError>((made@, output.fields@)),
            Err(e) => projections_from(
                projections@,
                0,
                input.fields@,
                Seq::empty(),
                Seq::empty(),
                *facts,
            ) == Err::<(Seq<Projection>, Seq<Field>), SemanticError>(e),
        },
{
    let mut made: Vec<Projection> = Vec::new();
    let mut outputs: Vec<Field> = Vec::new();
    let mut index: usize = 0;
    assert(made@ =~= Seq::empty());
    assert(outputs@ =~= Seq::empty());
    while index < projections.len()
        invariant
            index <= projections@.len(),
            projections_from(projections@, 0, input.fields@, Seq::empty(), Seq::empty(), *facts)
                == projections_from(
                projections@,
                index as int,
                input.fields@,
                made@,
                outputs@,
                *facts,
            ),
        decreases projections@.len() - index,
    {
        match convert_projection(&projections[index], input, facts) {
            Err(e) => {
                return Err(e);
            },
            Ok((projection, span)) => {
                if let Err(e) = ensure_unique_output(&outputs, &projection.output_field, span) {
                    return Err(e);
                }
                outputs.push(projection.output_field.clone());
                made.push(projection);
            },
        }
        index = index + 1;
    }
    Ok((made, Relation { fields: outputs }))
}

/// The function of a pipeline that a function of a query is.
pub open spec fn pipeline_function(function: ast::AggregateFunction) -> AggregateFunction {
    match function {
        ast::AggregateFunction::Count => AggregateFunction::Count,
        ast::AggregateFunction::Sum => AggregateFunction::Sum,
        ast::AggregateFunction::Min => AggregateFunction::Min,
        ast::AggregateFunction::Max => AggregateFunction::Max,
        ast::AggregateFunction::Avg => AggregateFunction::Average,
    }
}

fn convert_aggregate_function(function: ast::AggregateFunction) -> (r: AggregateFunction)
    ensures
        r == pipeline_function(function),
{
    match function {
        ast::AggregateFunction::Count => AggregateFunction::Count,
        ast::AggregateFunction::Sum => AggregateFunction::Sum,
        ast::AggregateFunction::Min => AggregateFunction::Min,
        ast::AggregateFunction::Max => AggregateFunction::Max,
        ast::AggregateFunction::Avg => AggregateFunction::Average,
    }
}

/// The type that a function gives for an argument, if it takes one of that type.
pub open spec fn aggregate_type(function: AggregateFunction, argument: LogicalType) -> Option<
    LogicalType,
> {
    match function {
        AggregateFunction::Count => Some(LogicalType::Int64),
        AggregateFunction::Sum => match argument {
            LogicalType::Int32 | LogicalType::Int64 => Some(LogicalType::Int64),
            LogicalType::UInt32 | LogicalType::UInt64 => Some(LogicalType::UInt64),
            LogicalType::Float32 | LogicalType::Float64 => Some(LogicalType::Float64),
            _ => None,
        },
        AggregateFunction::Average => if is_numeric(argument) {
            Some(LogicalType::Float64)
        } else {
            None
        },
        AggregateFunction::Min | AggregateFunction::Max => if is_numeric(argument) || argument
            == LogicalType::Utf8 || argument == LogicalType::Datetime || argument
            == LogicalType::Eid {
            Some(argument)
        } else {
            None
        },
    }
}

/// The type and the nullability that a function gives. A count is never null; every other
/// function needs an argument, and is null for a group without values.
pub open spec fn aggregate_result(
    function: AggregateFunction,
    argument: Option<Field>,
    span: Span,
) -> Result<(LogicalType, Nullability), SemanticError> {
    match (function, argument) {
        (AggregateFunction::Count, _) => Ok((LogicalType::Int64, Nullability::NonNull)),
        (_, None) => Err(SemanticError::FunctionArityInvalid { function, span }),
        (_, Some(field)) => match aggregate_type(function, field.logical_type) {
            Some(logical_type) => Ok((logical_type, Nullability::Nullable)),
            None => Err(
                SemanticError::FunctionArgumentTypeInvalid {
                    function,
                    logical_type: field.logical_type,
                    span,
                },
            ),
        },
    }
}

/// Finds the type and the nullability that a function gives.
pub fn aggregate_output(function: AggregateFunction, argument: &Option<Field>, span: Span) -> (r:
    Result<(LogicalType, Nullability), SemanticError>)
    ensures
        r == aggregate_result(function, *argument, span),
{
    if function == AggregateFunction::Count {
        return Ok((LogicalType::Int64, Nullability::NonNull));
    }
    let argument: LogicalType = match argument {
        None => {
            return Err(SemanticError::FunctionArityInvalid { function, span });
        },
        Some(field) => field.logical_type,
    };
    let result: Option<LogicalType> = match function {
        AggregateFunction::Count => Some(LogicalType::Int64),
        AggregateFunction::Sum => match argument {
            LogicalType::Int32 | LogicalType::Int64 => Some(LogicalType::Int64),
            LogicalType::UInt32 | LogicalType::UInt64 => Some(LogicalType::UInt64),
            LogicalType::Float32 | LogicalType::Float64 => Some(LogicalType::Float64),
            _ => None,
        },
        AggregateFunction::Average => if has_numeric(argument) {
            Some(LogicalType::Float64)
        } else {
            None
        },
        AggregateFunction::Min | AggregateFunction::Max => if has_numeric(argument) || argument
            == LogicalType::Utf8 || argument == LogicalType::Datetime || argument
            == LogicalType::Eid {
            Some(argument)
        } else {
            None
        },
    };
    match result {
        Some(logical_type) => Ok((logical_type, Nullability::Nullable)),
        None => Err(
            SemanticError::FunctionArgumentTypeInvalid { function, logical_type: argument, span },
        ),
    }
}

/// An output field of a summary with the function that gives it.
pub open spec fn measured(measure: ast::Measure, fields: Seq<Field>) -> Result<
    (AggregateExpression, Span),
    SemanticError,
> {
    let call = measure.aggregate;
    let function = pipeline_function(call.function);
    let argument = match call.argument {
        None => Ok(None),
        Some(reference) => match resolved(reference, fields) {
            Ok(field) => Ok(Some(field)),
            Err(e) => Err(e),
        },
    };
    match (measure.alias, argument) {
        (None, _) => Err(SemanticError::AggregateAliasRequired { span: measure.span }),
        (Some(_), Err(e)) => Err(e),
        (Some(alias), Ok(argument)) => match aggregate_result(function, argument, call.span) {
            Err(e) => Err(e),
            Ok((logical_type, nullability)) => Ok(
                (
                    AggregateExpression {
                        function,
                        argument,
                        output_field: derived(
                            alias.value,
                            logical_type,
                            nullability,
                            alias.span,
                        ),
                    },
                    alias.span,
                ),
            ),
        },
    }
}

fn convert_measure(measure: &ast::Measure, input: &Relation) -> (r: Result<
    (AggregateExpression, Span),
    SemanticError,
>)
    ensures
        r == measured(*measure, input.fields@),
{
    let alias: &ast::Identifier = match &measure.alias {
        None => {
            return Err(SemanticError::AggregateAliasRequired { span: measure.span });
        },
        Some(alias) => alias,
    };
    let call: &ast::AggregateCall = &measure.aggregate;
    let argument: Option<Field> = match &call.argument {
        None => None,
        Some(reference) => match resolve_field(reference, input) {
            Ok(field) => Some(field),
            Err(e) => {
                return Err(e);
            },
        },
    };
    let function: AggregateFunction = convert_aggregate_function(call.function);
    match aggregate_output(function, &argument, call.span) {
        Err(e) => Err(e),
        Ok((logical_type, nullability)) => Ok(
            (
                AggregateExpression {
                    function,
                    argument,
                    output_field: Field {
                        name: alias.value.clone(),
                        logical_type,
                        nullability,
                        origin: FieldOrigin::Derived { declaration_span: alias.span },
                    },
                },
                alias.span,
            ),
        ),
    }
}

/// The fields that references from `at` on name, behind those that were found. No two have the
/// same name.
pub open spec fn groups_from(
    references: Seq<ast::FieldReference>,
    at: int,
    fields: Seq<Field>,
    found: Seq<Field>,
) -> Result<Seq<Field>, SemanticError>
    decreases references.len() - at,
{
    if !(0 <= at < references.len()) {
        Ok(found)
    } else {
        match resolved(references[at], fields) {
            Err(e) => Err(e),
            Ok(field) => match with_output(found, field, references[at].place()) {
                Err(e) => Err(e),
                Ok(extended) => groups_from(references, at + 1, fields, extended),
            },
        }
    }
}

/// The measures from `at` on, behind those that were made, with the output fields.
pub open spec fn measures_from(
    measures: Seq<ast::Measure>,
    at: int,
    fields: Seq<Field>,
    made: Seq<AggregateExpression>,
    outputs: Seq<Field>,
) -> Result<(Seq<AggregateExpression>, Seq<Field>), SemanticError>
    decreases measures.len() - at,
{
    if !(0 <= at < measures.len()) {
        Ok((made, outputs))
    } else {
        match measured(measures[at], fields) {
            Err(e) => Err(e),
            Ok((measure, span)) => match with_output(outputs, measure.output_field, span) {
                Err(e) => Err(e),
                Ok(extended) => measures_from(
                    measures,
                    at + 1,
                    fields,
                    made.push(measure),
                    extended,
                ),
            },
        }
    }
}

/// The step that a summary is, with its output fields: those that it groups by, and behind them
/// its measures.
pub open spec fn summarized(
    measures: Seq<ast::Measure>,
    group_by: Seq<ast::FieldReference>,
    fields: Seq<Field>,
) -> Result<StageView, SemanticError> {
    match groups_from(group_by, 0, fields, Seq::empty()) {
        Err(e) => Err(e),
        Ok(groups) => match measures_from(measures, 0, fields, Seq::empty(), groups) {
            Err(e) => Err(e),
            Ok((made, output)) => Ok(
                StageView {
                    kind: StepView::Aggregate { measures: made, group_by: groups },
                    output,
                },
            ),
        },
    }
}

/// Whether a stage that was made is what a specification says.
pub open spec fn same_stage(
    r: Result<Stage, SemanticError>,
    made: Result<StageView, SemanticError>,
) -> bool {
    match r {
        Ok(stage) => made == Ok::<StageView, SemanticError>(stage@),
        Err(e) => made == Err::<StageView, SemanticError>(e),
    }
}

fn convert_groups(references: &Vec<ast::FieldReference>, input: &Relation) -> (r: Result<
    Vec<Field>,
    SemanticError,
>)
    ensures
        match r {
            Ok(groups) => groups_from(references@, 0, input.fields@, Seq::empty()) == Ok::<
                Seq<Field>,
                SemanticError,
            >(groups@),
            Err(e) => groups_from(references@, 0, input.fields@, Seq::empty()) == Err::<
                Seq<Field>,
                SemanticError,
            >(e),
        },
{
    let mut groups: Vec<Field> = Vec::new();
    let mut index: usize = 0;
    assert(groups@ =~= Seq::empty());
    while index < references.len()
        invariant
            index <= references@.len(),
            groups_from(references@, 0, input.fields@, Seq::empty()) == groups_from(
                references@,
                index as int,
                input.fields@,
                groups@,
            ),
        decreases references@.len() - index,
    {
        let field: Field = match resolve_field(&references[index], input) {
            Err(e) => {
                return Err(e);
            },
            Ok(field) => field,
        };
        if let Err(e) = ensure_unique_output(&groups, &field, references[index].span()) {
            return Err(e);
        }
        groups.push(field);
        index = index + 1;
    }
    Ok(groups)
}

/// Makes a typed summary.
pub fn convert_summarize(
    measures: &Vec<ast::Measure>,
    group_by: &Vec<ast::FieldReference>,
    input: &Relation,
) -> (r: Result<Stage, SemanticError>)
    ensures
        same_stage(r, summarized(measures@, group_by@, input.fields@)),
{
    let groups: Vec<Field> = match convert_groups(group_by, input) {
        Err(e) => {
            return Err(e);
        },
        Ok(groups) => groups,
    };
    let mut outputs: Vec<Field> = Vec::new();
    let mut index: usize = 0;
    while index < groups.len()
        invariant
            index <= groups@.len(),
            outputs@ == groups@.subrange(0, index as int),
        decreases groups@.len() - index,
    {
        outputs.push(groups[index].clone());
        index = index + 1;
        assert(outputs@ =~= groups@.subrange(0, index as int));
    }
    assert(outputs@ =~= groups@);
    let mut made: Vec<AggregateExpression> = Vec::new();
    assert(made@ =~= Seq::empty());
    index = 0;
    while index < measures.len()
        invariant
            index <= measures@.len(),
            groups_from(group_by@, 0, input.fields@, Seq::empty()) == Ok::<
                Seq<Field>,
                SemanticError,
            >(groups@),
            measures_from(measures@, 0, input.fields@, Seq::empty(), groups@) == measures_from(
                measures@,
                index as int,
                input.fields@,
                made@,
                outputs@,
            ),
        decreases measures@.len() - index,
    {
        match convert_measure(&measures[index], input) {
            Err(e) => {
                return Err(e);
            },
            Ok((measure, span)) => {
                if let Err(e) = ensure_unique_output(&outputs, &measure.output_field, span) {
                    return Err(e);
                }
                outputs.push(measure.output_field.clone());
                made.push(measure);
            },
        }
        index = index + 1;
    }
    Ok(
        Stage {
            kind: StageKind::Aggregate { measures: made, group_by: groups },
            output_relation: Relation { fields: outputs },
        },
    )
}

/// The number of rows that a limit keeps.
pub open spec fn taken(value: SignedIntegerLiteral) -> Result<u64, SemanticError> {
    let span = value.span;
    let number = if value.sign == NumericSign::Negative {
        -(value.magnitude as int)
    } else {
        value.magnitude as int
    };
    if !(i64::MIN <= number <= i64::MAX) {
        Err(SemanticError::LimitOutOfRange { span })
    } else if number < 0 {
        Err(SemanticError::InvalidLimitValue { value: number as i64, span })
    } else {
        Ok(number as u64)
    }
}

/// Finds the number of rows that a limit keeps.
pub fn convert_take(value: &SignedIntegerLiteral) -> (r: Result<u64, SemanticError>)
    ensures
        r == taken(*value),
{
    let span: Span = value.span;
    if value.sign == NumericSign::Negative && value.magnitude != 0 {
        if value.magnitude > 9_223_372_036_854_775_808 {
            return Err(SemanticError::LimitOutOfRange { span });
        }
        return Err(
            SemanticError::InvalidLimitValue {
                value: (-(value.magnitude as i128)) as i64,
                span,
            },
        );
    }
    if value.magnitude > 9_223_372_036_854_775_807 {
        return Err(SemanticError::LimitOutOfRange { span });
    }
    Ok(value.magnitude)
}

/// The fields to sort by from `at` on, behind those that were found.
pub open spec fn sorts_from(
    items: Seq<ast::SortItem>,
    at: int,
    fields: Seq<Field>,
    found: Seq<SortSpec>,
) -> Result<Seq<SortSpec>, SemanticError>
    decreases items.len() - at,
{
    if !(0 <= at < items.len()) {
        Ok(found)
    } else {
        match resolved(items[at].field, fields) {
            Err(e) => Err(e),
            Ok(field) => {
                let order = match items[at].direction {
                    SortDirection::Ascending => SortOrder::Ascending,
                    SortDirection::Descending => SortOrder::Descending,
                };
                sorts_from(items, at + 1, fields, found.push(SortSpec { field, order }))
            },
        }
    }
}

fn convert_sort(items: &Vec<ast::SortItem>, input: &Relation) -> (r: Result<
    Vec<SortSpec>,
    SemanticError,
>)
    ensures
        match r {
            Ok(specs) => sorts_from(items@, 0, input.fields@, Seq::empty()) == Ok::<
                Seq<SortSpec>,
                SemanticError,
            >(specs@),
            Err(e) => sorts_from(items@, 0, input.fields@, Seq::empty()) == Err::<
                Seq<SortSpec>,
                SemanticError,
            >(e),
        },
{
    let mut specs: Vec<SortSpec> = Vec::new();
    let mut index: usize = 0;
    assert(specs@ =~= Seq::empty());
    while index < items.len()
        invariant
            index <= items@.len(),
            sorts_from(items@, 0, input.fields@, Seq::empty()) == sorts_from(
                items@,
                index as int,
                input.fields@,
                specs@,
            ),
        decreases items@.len() - index,
    {
        let field: Field = match resolve_field(&items[index].field, input) {
            Err(e) => {
                return Err(e);
            },
            Ok(field) => field,
        };
        let order: SortOrder = match items[index].direction {
            SortDirection::Ascending => SortOrder::Ascending,
            SortDirection::Descending => SortOrder::Descending,
        };
        specs.push(SortSpec { field, order });
        index = index + 1;
    }
    Ok(specs)
}

/// The typed stage that a stage is, in the relation that it sees.
pub open spec fn staged(stage: ast::StageView, fields: Seq<Field>, facts: FloatFacts) -> Result<
    StageView,
    SemanticError,
> {
    match stage.kind {
        ast::StepView::Filter(expression) => match typed(expression, fields, None, facts) {
            Err(e) => Err(e),
            Ok(expression) => Ok(
                StageView { kind: StepView::Filter(expression), output: fields },
            ),
        },
        ast::StepView::Project(projections) => match projections_from(
            projections,
            0,
            fields,
            Seq::empty(),
            Seq::empty(),
            facts,
        ) {
            Err(e) => Err(e),
            Ok((made, output)) => Ok(StageView { kind: StepView::Project(made), output }),
        },
        ast::StepView::Sort(items) => match sorts_from(items, 0, fields, Seq::empty()) {
            Err(e) => Err(e),
            Ok(specs) => Ok(StageView { kind: StepView::Sort(specs), output: fields }),
        },
        ast::StepView::Take(value) => match taken(value) {
            Err(e) => Err(e),
            Ok(count) => Ok(StageView { kind: StepView::Take(count), output: fields }),
        },
        ast::StepView::Summarize { measures, group_by } => summarized(measures, group_by, fields),
    }
}

/// Makes a typed stage of a stage.
pub fn convert_stage(stage: &ast::Stage, input: &Relation, facts: &FloatFacts) -> (r: Result<
    Stage,
    SemanticError,
>)
    ensures
        same_stage(r, staged(stage@, input.fields@, *facts)),
{
    match &stage.kind {
        ast::StageKind::Filter(expression) => match convert_expression(expression, input, facts) {
            Err(e) => Err(e),
            Ok(expression) => Ok(
                Stage { kind: StageKind::Filter(expression), output_relation: input.clone() },
            ),
        },
        ast::StageKind::Project(projections) => match convert_project(projections, input, facts) {
            Err(e) => Err(e),
            Ok((made, output_relation)) => Ok(
                Stage { kind: StageKind::Project(made), output_relation },
            ),
        },
        ast::StageKind::Sort(items) => match convert_sort(items, input) {
            Err(e) => Err(e),
            Ok(specs) => Ok(
                Stage { kind: StageKind::Sort(specs), output_relation: input.clone() },
            ),
        },
        ast::StageKind::Take(value) => match convert_take(value) {
            Err(e) => Err(e),
            Ok(count) => Ok(
                Stage { kind: StageKind::Take(count), output_relation: input.clone() },
            ),
        },
        ast::StageKind::Summarize { measures, group_by } => convert_summarize(
            measures,
            group_by,
            input,
        ),
    }
}

/// The warnings for a projection.
pub open spec fn projection_warnings(projection: ast::Projection, fields: Seq<Field>) -> Seq<
    DiagnosticView,
> {
    match projection {
        ast::Projection::Field(reference) => reference_warnings(reference, fields),
        ast::Projection::Computed(computed) => warnings_of(computed.expression, fields),
        ast::Projection::Unaliased(_) => Seq::empty(),
    }
}

/// The warnings for projections.
pub open spec fn all_projection_warnings(
    projections: Seq<ast::Projection>,
    fields: Seq<Field>,
) -> Seq<DiagnosticView>
    decreases projections.len(),
{
    if projections.len() == 0 {
        Seq::empty()
    } else {
        all_projection_warnings(projections.drop_last(), fields) + projection_warnings(
            projections.last(),
            fields,
        )
    }
}

/// The warnings for a stage.
pub open spec fn stage_warnings(stage: ast::StageView, fields: Seq<Field>) -> Seq<DiagnosticView> {
    match stage.kind {
        ast::StepView::Filter(expression) => warnings_of(expression, fields),
        ast::StepView::Project(projections) => all_projection_warnings(projections, fields),
        _ => Seq::empty(),
    }
}

/// Adds the warnings for a stage.
pub fn warn_of_stage(stage: &ast::Stage, input: &Relation, warnings: &mut Vec<Diagnostic>)
    ensures
        diagnostic_views(final(warnings)@) == diagnostic_views(old(warnings)@) + stage_warnings(
            stage@,
            input.fields@,
        ),
{
    let ghost before = diagnostic_views(warnings@);
    let ghost fields = input.fields@;
    match &stage.kind {
        ast::StageKind::Filter(expression) => warn_of_expression(expression, input, warnings),
        ast::StageKind::Project(projections) => {
            let mut index: usize = 0;
            assert(projections@.subrange(0, 0) =~= Seq::empty());
            assert(diagnostic_views(warnings@) =~= before + all_projection_warnings(
                projections@.subrange(0, 0),
                fields,
            ));
            while index < projections.len()
                invariant
                    index <= projections@.len(),
                    fields == input.fields@,
                    diagnostic_views(warnings@) == before + all_projection_warnings(
                        projections@.subrange(0, index as int),
                        fields,
                    ),
                decreases projections@.len() - index,
            {
                let ghost through = projections@.subrange(0, index + 1);
                let ghost earlier = diagnostic_views(warnings@);
                assert(through.drop_last() =~= projections@.subrange(0, index as int));
                assert(through.last() == projections@[index as int]);
                match &projections[index] {
                    ast::Projection::Field(reference) => warn_of_reference(
                        reference,
                        input,
                        warnings,
                    ),
                    ast::Projection::Computed(computed) => warn_of_expression(
                        &computed.expression,
                        input,
                        warnings,
                    ),
                    ast::Projection::Unaliased(_) => {
                        assert(diagnostic_views(warnings@) =~= earlier + Seq::empty());
                    },
                }
                assert(diagnostic_views(warnings@) =~= before + all_projection_warnings(
                    through,
                    fields,
                ));
                index = index + 1;
            }
            assert(projections@.subrange(0, projections@.len() as int) =~= projections@);
        },
        _ => {
            assert(diagnostic_views(warnings@) =~= before + Seq::empty());
        },
    }
}

proof fn lemma_projections_are_unique(
    projections: Seq<ast::Projection>,
    at: int,
    fields: Seq<Field>,
    made: Seq<Projection>,
    outputs: Seq<Field>,
    facts: FloatFacts,
)
    requires
        unique_names(outputs),
        made.len() == outputs.len(),
        forall|i: int| 0 <= i < made.len() ==> (#[trigger] made[i]).output_field == outputs[i],
    ensures
        projections_from(projections, at, fields, made, outputs, facts) matches Ok((all, names)) ==> {
            &&& unique_names(names)
            &&& all.len() == names.len()
            &&& forall|i: int|
                0 <= i < all.len() ==> (#[trigger] all[i]).output_field == names[i]
        },
    decreases projections.len() - at,
{
    if 0 <= at < projections.len() {
        if let Ok((projection, span)) = projected(projections[at], fields, facts) {
            if let Ok(extended) = with_output(outputs, projection.output_field, span) {
                lemma_projections_are_unique(
                    projections,
                    at + 1,
                    fields,
                    made.push(projection),
                    extended,
                    facts,
                );
            }
        }
    }
}

proof fn lemma_groups_are_unique(
    references: Seq<ast::FieldReference>,
    at: int,
    fields: Seq<Field>,
    found: Seq<Field>,
)
    requires
        unique_names(found),
    ensures
        groups_from(references, at, fields, found) matches Ok(groups) ==> unique_names(groups),
    decreases references.len() - at,
{
    if 0 <= at < references.len() {
        if let Ok(field) = resolved(references[at], fields) {
            if let Ok(extended) = with_output(found, field, references[at].place()) {
                lemma_groups_are_unique(references, at + 1, fields, extended);
            }
        }
    }
}

proof fn lemma_measures_are_unique(
    measures: Seq<ast::Measure>,
    at: int,
    fields: Seq<Field>,
    made: Seq<AggregateExpression>,
    outputs: Seq<Field>,
)
    requires
        unique_names(outputs),
    ensures
        measures_from(measures, at, fields, made, outputs) matches Ok((_, names)) ==> unique_names(
            names,
        ),
    decreases measures.len() - at,
{
    if 0 <= at < measures.len() {
        if let Ok((measure, span)) = measured(measures[at], fields) {
            if let Ok(extended) = with_output(outputs, measure.output_field, span) {
                lemma_measures_are_unique(measures, at + 1, fields, made.push(measure), extended);
            }
        }
    }
}

/// No two fields that a stage gives have the same name, if that holds of the fields that it sees.
pub proof fn output_names_are_unique(stage: ast::StageView, fields: Seq<Field>, facts: FloatFacts)
    requires
        unique_names(fields),
    ensures
        staged(stage, fields, facts) matches Ok(made) ==> unique_names(made.output),
{
    match stage.kind {
        ast::StepView::Project(projections) => {
            lemma_projections_are_unique(projections, 0, fields, Seq::empty(), Seq::empty(), facts);
        },
        ast::StepView::Summarize { measures, group_by } => {
            lemma_groups_are_unique(group_by, 0, fields, Seq::empty());
            if let Ok(groups) = groups_from(group_by, 0, fields, Seq::empty()) {
                lemma_measures_are_unique(measures, 0, fields, Seq::empty(), groups);
            }
        },
        _ => {},
    }
}

proof fn lemma_projections_ask_only_for_unknowns(
    projections: Seq<ast::Projection>,
    at: int,
    fields: Seq<Field>,
    made: Seq<Projection>,
    outputs: Seq<Field>,
    facts: FloatFacts,
    more: FloatFacts,
)
    requires
        more.extend(facts),
    ensures
        asks_only_for_unknowns(
            projections_from(projections, at, fields, made, outputs, facts),
            projections_from(projections, at, fields, made, outputs, more),
            facts,
        ),
    decreases projections.len() - at,
{
    if 0 <= at < projections.len() {
        if let ast::Projection::Computed(computed) = projections[at] {
            typing_asks_only_for_unknowns(computed.expression, fields, None, facts, more);
        }
        if let Ok((projection, span)) = projected(projections[at], fields, facts) {
            if let Ok(extended) = with_output(outputs, projection.output_field, span) {
                lemma_projections_ask_only_for_unknowns(
                    projections,
                    at + 1,
                    fields,
                    made.push(projection),
                    extended,
                    facts,
                    more,
                );
            }
        }
    }
}

/// Of the errors of a sort none asks for anything.
proof fn lemma_sorts_ask_for_nothing(
    items: Seq<ast::SortItem>,
    at: int,
    fields: Seq<Field>,
    made: Seq<SortSpec>,
)
    ensures
        sorts_from(items, at, fields, made) matches Err(e) ==> !(e is FloatUnknown),
    decreases items.len() - at,
{
    if 0 <= at < items.len() {
        if let Ok(field) = resolved(items[at].field, fields) {
            let order = match items[at].direction {
                SortDirection::Ascending => SortOrder::Ascending,
                SortDirection::Descending => SortOrder::Descending,
            };
            lemma_sorts_ask_for_nothing(
                items,
                at + 1,
                fields,
                made.push(SortSpec { field, order }),
            );
        }
    }
}

/// Of the errors of a grouping none asks for anything.
proof fn lemma_groups_ask_for_nothing(
    references: Seq<ast::FieldReference>,
    at: int,
    fields: Seq<Field>,
    found: Seq<Field>,
)
    ensures
        groups_from(references, at, fields, found) matches Err(e) ==> !(e is FloatUnknown),
    decreases references.len() - at,
{
    if 0 <= at < references.len() {
        if let Ok(field) = resolved(references[at], fields) {
            if let Ok(extended) = with_output(found, field, references[at].place()) {
                lemma_groups_ask_for_nothing(references, at + 1, fields, extended);
            }
        }
    }
}

/// Of the errors of measures none asks for anything.
proof fn lemma_measures_ask_for_nothing(
    measures: Seq<ast::Measure>,
    at: int,
    fields: Seq<Field>,
    made: Seq<AggregateExpression>,
    outputs: Seq<Field>,
)
    ensures
        measures_from(measures, at, fields, made, outputs) matches Err(e) ==> !(e is FloatUnknown),
    decreases measures.len() - at,
{
    if 0 <= at < measures.len() {
        if let Ok((measure, span)) = measured(measures[at], fields) {
            if let Ok(extended) = with_output(outputs, measure.output_field, span) {
                lemma_measures_ask_for_nothing(
                    measures,
                    at + 1,
                    fields,
                    made.push(measure),
                    extended,
                );
            }
        }
    }
}

/// Typing a stage asks only for what is not known of floating-point constants, and what it has
/// decided stays when more is known.
pub proof fn staging_asks_only_for_unknowns(
    stage: ast::StageView,
    fields: Seq<Field>,
    facts: FloatFacts,
    more: FloatFacts,
)
    requires
        more.extend(facts),
    ensures
        asks_only_for_unknowns(staged(stage, fields, facts), staged(stage, fields, more), facts),
{
    match stage.kind {
        ast::StepView::Filter(expression) => {
            typing_asks_only_for_unknowns(expression, fields, None, facts, more);
        },
        ast::StepView::Project(projections) => {
            lemma_projections_ask_only_for_unknowns(
                projections,
                0,
                fields,
                Seq::empty(),
                Seq::empty(),
                facts,
                more,
            );
        },
        ast::StepView::Sort(items) => {
            lemma_sorts_ask_for_nothing(items, 0, fields, Seq::empty());
        },
        ast::StepView::Summarize { measures, group_by } => {
            lemma_groups_ask_for_nothing(group_by, 0, fields, Seq::empty());
            if let Ok(groups) = groups_from(group_by, 0, fields, Seq::empty()) {
                lemma_measures_ask_for_nothing(measures, 0, fields, Seq::empty(), groups);
            }
        },
        _ => {},
    }
}

/// How many bits a number of a type takes, zero for a type that is not one of numbers.
pub open spec fn number_bits(logical_type: LogicalType) -> int {
    match logical_type {
        LogicalType::Int32 | LogicalType::UInt32 | LogicalType::Float32 => 32,
        LogicalType::Int64 | LogicalType::UInt64 | LogicalType::Float64 => 64,
        _ => 0,
    }
}

/// Whether two types are of the same kind of number.
pub open spec fn same_number_kind(left: LogicalType, right: LogicalType) -> bool {
    match (left, right) {
        (
            LogicalType::Int32 | LogicalType::Int64,
            LogicalType::Int32 | LogicalType::Int64,
        ) => true,
        (
            LogicalType::UInt32 | LogicalType::UInt64,
            LogicalType::UInt32 | LogicalType::UInt64,
        ) => true,
        (
            LogicalType::Float32 | LogicalType::Float64,
            LogicalType::Float32 | LogicalType::Float64,
        ) => true,
        _ => false,
    }
}

/// A count is an integer and never null, whatever is counted. The least and the greatest of values
/// have their type, and are those of values that are ordered and more than two. A sum is of the
/// widest numbers of the kind of its summands, an average is a fraction, and both are of numbers
/// alone. All of these are null where there is no value.
pub proof fn aggregates_have_the_type_of_their_result(
    function: AggregateFunction,
    argument: Option<Field>,
    span: Span,
)
    ensures
        function is Count ==> aggregate_result(function, argument, span) == Ok::<
            (LogicalType, Nullability),
            SemanticError,
        >((LogicalType::Int64, Nullability::NonNull)),
        !(function is Count) && argument is None ==> aggregate_result(function, argument, span)
            == Err::<(LogicalType, Nullability), SemanticError>(
            SemanticError::FunctionArityInvalid { function, span },
        ),
        !(function is Count) ==> (aggregate_result(function, argument, span) matches Ok(made)
            ==> made.1 == Nullability::Nullable),
        argument matches Some(field) ==> {
            let given = field.logical_type;
            let made = aggregate_result(function, argument, span);
            &&& function is Min || function is Max ==> {
                &&& made is Ok <==> given != LogicalType::Bool && given != LogicalType::Json
                &&& made is Ok ==> made->Ok_0.0 == given
            }
            &&& function is Sum ==> {
                &&& made is Ok <==> number_bits(given) > 0
                &&& made is Ok ==> same_number_kind(made->Ok_0.0, given) && number_bits(
                    made->Ok_0.0,
                ) == 64
            }
            &&& function is Average ==> {
                &&& made is Ok <==> number_bits(given) > 0
                &&& made is Ok ==> made->Ok_0.0 == LogicalType::Float64
            }
            &&& made is Err ==> made->Err_0 == (SemanticError::FunctionArgumentTypeInvalid {
                function,
                logical_type: given,
                span,
            })
        },
{
}

} // verus!
