//! The typed pipeline that a query becomes.

use vstd::prelude::*;
use vstd::string::*;

use crate::catalog::{LogicalType, Nullability};
use crate::identity::{FieldId, SchemaId, SourceId};
use crate::language::span::Span;

verus! {

/// An instant: milliseconds since the Unix epoch, in UTC.
#[derive(Clone, Copy, Debug, PartialEq, Eq, PartialOrd, Ord, Hash, Structural)]
pub struct UtcInstant(pub i64);

impl UtcInstant {
    /// The Unix epoch.
    pub fn unix_epoch() -> (r: Self)
        ensures
            r.0 == 0,
    {
        UtcInstant(0)
    }

    pub fn from_unix_milliseconds(value: i64) -> (r: Self)
        ensures
            r.0 == value,
    {
        UtcInstant(value)
    }

    pub fn unix_milliseconds(self) -> (r: i64)
        ensures
            r == self.0,
    {
        self.0
    }
}

/// A magnitude from which a floating-point number is rounded: an integer, or a decimal numeral.
#[derive(Debug, PartialEq, Eq)]
pub enum FloatMagnitude {
    Integer(u64),
    Decimal(String),
}

/// A finite floating-point number, as the numeral from which it is rounded. If `single`, it is
/// rounded to single precision first.
#[derive(Debug, PartialEq, Eq)]
pub struct FloatConstant {
    pub negative: bool,
    pub magnitude: FloatMagnitude,
    pub single: bool,
}

/// A constant.
#[derive(Debug, PartialEq, Eq)]
pub enum Literal {
    Null(LogicalType),
    Boolean(bool),
    Int32(i32),
    Int64(i64),
    UInt32(u32),
    UInt64(u64),
    Float32(FloatConstant),
    Float64(FloatConstant),
    Utf8(String),
    Datetime(UtcInstant),
    Eid([u8; 16]),
}

impl Literal {
    /// The type of a constant.
    pub open spec fn ty(self) -> LogicalType {
        match self {
            Literal::Null(logical_type) => logical_type,
            Literal::Boolean(_) => LogicalType::Bool,
            Literal::Int32(_) => LogicalType::Int32,
            Literal::Int64(_) => LogicalType::Int64,
            Literal::UInt32(_) => LogicalType::UInt32,
            Literal::UInt64(_) => LogicalType::UInt64,
            Literal::Float32(_) => LogicalType::Float32,
            Literal::Float64(_) => LogicalType::Float64,
            Literal::Utf8(_) => LogicalType::Utf8,
            Literal::Datetime(_) => LogicalType::Datetime,
            Literal::Eid(_) => LogicalType::Eid,
        }
    }

    /// Whether a constant may be null.
    pub open spec fn null(self) -> Nullability {
        if self is Null {
            Nullability::Nullable
        } else {
            Nullability::NonNull
        }
    }

    pub fn logical_type(&self) -> (r: LogicalType)
        ensures
            r == self.ty(),
    {
        match self {
            Literal::Null(logical_type) => *logical_type,
            Literal::Boolean(_) => LogicalType::Bool,
            Literal::Int32(_) => LogicalType::Int32,
            Literal::Int64(_) => LogicalType::Int64,
            Literal::UInt32(_) => LogicalType::UInt32,
            Literal::UInt64(_) => LogicalType::UInt64,
            Literal::Float32(_) => LogicalType::Float32,
            Literal::Float64(_) => LogicalType::Float64,
            Literal::Utf8(_) => LogicalType::Utf8,
            Literal::Datetime(_) => LogicalType::Datetime,
            Literal::Eid(_) => LogicalType::Eid,
        }
    }

    pub fn nullability(&self) -> (r: Nullability)
        ensures
            r == self.null(),
    {
        match self {
            Literal::Null(_) => Nullability::Nullable,
            _ => Nullability::NonNull,
        }
    }
}

/// An operator of one operand.
#[derive(Clone, Copy, Debug, PartialEq, Eq, Hash, Structural)]
pub enum UnaryOperator {
    Not,
    Negate,
}

/// An operator of two operands.
#[derive(Clone, Copy, Debug, PartialEq, Eq, Hash, Structural)]
pub enum BinaryOperator {
    Add,
    Subtract,
    Multiply,
    Divide,
    Equal,
    NotEqual,
    GreaterThan,
    GreaterThanOrEqual,
    LessThan,
    LessThanOrEqual,
    And,
    Or,
}

/// What a cast does with a value that the target cannot hold. A lossless one meets none.
#[derive(Clone, Copy, Debug, PartialEq, Eq, Hash, Structural)]
pub enum CastKind {
    Lossless,
    Strict,
    NullOnFailure,
}

/// What is asked of the remainder of a record.
#[derive(Clone, Copy, Debug, PartialEq, Eq, Hash, Structural)]
pub enum RemainderFunction {
    Value,
    Exists,
}

/// What is asked of a value that may be null.
#[derive(Clone, Copy, Debug, PartialEq, Eq, Hash, Structural)]
pub enum NullPredicate {
    IsNull,
    IsNotNull,
}

/// Where a field comes from.
#[derive(Clone, Copy, Debug, PartialEq, Eq, Hash, Structural)]
pub enum FieldOrigin {
    Schema { field_id: FieldId },
    System { field_id: FieldId },
    Derived { declaration_span: Span },
}

/// A field of a relation.
#[derive(Debug, PartialEq, Eq)]
pub struct Field {
    pub name: String,
    pub logical_type: LogicalType,
    pub nullability: Nullability,
    pub origin: FieldOrigin,
}

impl Field {
    pub fn name(&self) -> (r: &str)
        ensures
            r@ == self.name@,
    {
        self.name.as_str()
    }

    pub fn logical_type(&self) -> (r: LogicalType)
        ensures
            r == self.logical_type,
    {
        self.logical_type
    }

    pub fn nullability(&self) -> (r: Nullability)
        ensures
            r == self.nullability,
    {
        self.nullability
    }

    pub fn origin(&self) -> (r: &FieldOrigin)
        ensures
            *r == self.origin,
    {
        &self.origin
    }
}

impl Clone for Field {
    fn clone(&self) -> (r: Self)
        ensures
            r == *self,
    {
        Field {
            name: self.name.clone(),
            logical_type: self.logical_type,
            nullability: self.nullability,
            origin: self.origin,
        }
    }
}

/// The first field, from `from` on, with this name.
pub open spec fn field_named(fields: Seq<Field>, name: Seq<char>, from: int) -> Option<Field>
    decreases fields.len() - from,
{
    if !(0 <= from < fields.len()) {
        None
    } else if fields[from].name@ == name {
        Some(fields[from])
    } else {
        field_named(fields, name, from + 1)
    }
}

/// The fields that a stage sees, or that it gives.
#[derive(Debug, PartialEq, Eq)]
pub struct Relation {
    pub fields: Vec<Field>,
}

impl Relation {
    pub fn fields(&self) -> (r: &[Field])
        ensures
            r@ == self.fields@,
    {
        self.fields.as_slice()
    }

    /// The first field with this name.
    pub fn field(&self, name: &str) -> (r: Option<&Field>)
        ensures
            match field_named(self.fields@, name@, 0) {
                Some(field) => r == Some(&field),
                None => r is None,
            },
    {
        let sought: String = name.to_owned();
        let mut index: usize = 0;
        while index < self.fields.len()
            invariant
                index <= self.fields@.len(),
                sought@ == name@,
                field_named(self.fields@, name@, 0) == field_named(
                    self.fields@,
                    name@,
                    index as int,
                ),
            decreases self.fields@.len() - index,
        {
            if self.fields[index].name == sought {
                return Some(&self.fields[index]);
            }
            index = index + 1;
        }
        None
    }
}

impl Clone for Relation {
    fn clone(&self) -> (r: Self)
        ensures
            r.fields@ == self.fields@,
    {
        let mut fields: Vec<Field> = Vec::new();
        let mut index: usize = 0;
        while index < self.fields.len()
            invariant
                index <= self.fields@.len(),
                fields@ == self.fields@.subrange(0, index as int),
            decreases self.fields@.len() - index,
        {
            fields.push(self.fields[index].clone());
            index = index + 1;
            assert(fields@ =~= self.fields@.subrange(0, index as int));
        }
        assert(fields@ =~= self.fields@);
        Relation { fields }
    }
}

/// What an expression is.
#[derive(Debug, PartialEq, Eq)]
pub enum ExpressionKind {
    Literal(Literal),
    Field(Field),
    Unary { operator: UnaryOperator, operand: Box<Expression> },
    Binary { operator: BinaryOperator, left: Box<Expression>, right: Box<Expression> },
    Cast { kind: CastKind, expression: Box<Expression>, target: LogicalType },
    Remainder { function: RemainderFunction, remainder: Field, key: String },
    NullPredicate { expression: Box<Expression>, predicate: NullPredicate },
}

/// An expression with its type.
#[derive(Debug, PartialEq, Eq)]
pub struct Expression {
    pub kind: ExpressionKind,
    pub logical_type: LogicalType,
    pub nullability: Nullability,
}

impl Expression {
    pub fn kind(&self) -> (r: &ExpressionKind)
        ensures
            *r == self.kind,
    {
        &self.kind
    }

    pub fn logical_type(&self) -> (r: LogicalType)
        ensures
            r == self.logical_type,
    {
        self.logical_type
    }

    pub fn nullability(&self) -> (r: Nullability)
        ensures
            r == self.nullability,
    {
        self.nullability
    }

    pub fn into_parts(self) -> (r: (ExpressionKind, LogicalType, Nullability))
        ensures
            r.0 == self.kind,
            r.1 == self.logical_type,
            r.2 == self.nullability,
    {
        (self.kind, self.logical_type, self.nullability)
    }

    /// The expression that is a constant.
    pub open spec fn of_literal(literal: Literal) -> Expression {
        Expression {
            kind: ExpressionKind::Literal(literal),
            logical_type: literal.ty(),
            nullability: literal.null(),
        }
    }

    /// The expression that is a field.
    pub open spec fn of_field(field: Field) -> Expression {
        Expression {
            kind: ExpressionKind::Field(field),
            logical_type: field.logical_type,
            nullability: field.nullability,
        }
    }

    pub fn literal(literal: Literal) -> (r: Self)
        ensures
            r == Expression::of_literal(literal),
    {
        let logical_type: LogicalType = literal.logical_type();
        let nullability: Nullability = literal.nullability();
        Expression { kind: ExpressionKind::Literal(literal), logical_type, nullability }
    }

    pub(crate) fn field(field: Field) -> (r: Self)
        ensures
            r == Expression::of_field(field),
    {
        let logical_type: LogicalType = field.logical_type;
        let nullability: Nullability = field.nullability;
        Expression { kind: ExpressionKind::Field(field), logical_type, nullability }
    }
}

/// The source of a pipeline.
#[derive(Debug, PartialEq, Eq)]
pub struct Source {
    pub source_id: SourceId,
    pub name: String,
    pub active_schema_id: SchemaId,
}

impl Source {
    pub fn source_id(&self) -> (r: SourceId)
        ensures
            r == self.source_id,
    {
        self.source_id
    }

    pub fn name(&self) -> (r: &str)
        ensures
            r@ == self.name@,
    {
        self.name.as_str()
    }

    pub fn active_schema_id(&self) -> (r: SchemaId)
        ensures
            r == self.active_schema_id,
    {
        self.active_schema_id
    }

    pub fn to_string(&self) -> (r: String)
        ensures
            r@ == self.name@,
    {
        self.name.clone()
    }
}

/// A range of instants that is not empty.
#[derive(Clone, Copy, Debug, PartialEq, Eq, Structural)]
pub struct TimeRange {
    pub(crate) start_inclusive: UtcInstant,
    pub(crate) end_exclusive: UtcInstant,
}

impl TimeRange {
    #[verifier::type_invariant]
    pub(crate) open(crate) spec fn valid(self) -> bool {
        self.start_inclusive.0 < self.end_exclusive.0
    }

    pub open(crate) spec fn spec_start(self) -> UtcInstant {
        self.start_inclusive
    }

    pub open(crate) spec fn spec_end(self) -> UtcInstant {
        self.end_exclusive
    }

    pub fn new(start_inclusive: UtcInstant, end_exclusive: UtcInstant) -> (r: Option<Self>)
        ensures
            match r {
                Some(range) => start_inclusive.0 < end_exclusive.0 && range.spec_start()
                    == start_inclusive && range.spec_end() == end_exclusive,
                None => start_inclusive.0 >= end_exclusive.0,
            },
    {
        if start_inclusive.0 >= end_exclusive.0 {
            return None;
        }
        Some(TimeRange { start_inclusive, end_exclusive })
    }

    pub fn start_inclusive(self) -> (r: UtcInstant)
        ensures
            r == self.spec_start(),
            r.0 < self.spec_end().0,
    {
        proof {
            use_type_invariant(&self);
        }
        self.start_inclusive
    }

    pub fn end_exclusive(self) -> (r: UtcInstant)
        ensures
            r == self.spec_end(),
            self.spec_start().0 < r.0,
    {
        proof {
            use_type_invariant(&self);
        }
        self.end_exclusive
    }
}

/// An output field of a projection, and the expression that gives it.
#[derive(Debug, PartialEq, Eq)]
pub struct Projection {
    pub expression: Expression,
    pub output_field: Field,
}

impl Projection {
    pub fn expression(&self) -> (r: &Expression)
        ensures
            *r == self.expression,
    {
        &self.expression
    }

    pub fn output_field(&self) -> (r: &Field)
        ensures
            *r == self.output_field,
    {
        &self.output_field
    }

    pub fn into_parts(self) -> (r: (Expression, Field))
        ensures
            r.0 == self.expression,
            r.1 == self.output_field,
    {
        (self.expression, self.output_field)
    }
}

/// The order of a sort.
#[derive(Clone, Copy, Debug, PartialEq, Eq, Hash, Structural)]
pub enum SortOrder {
    Ascending,
    Descending,
}

impl Default for SortOrder {
    fn default() -> (r: Self)
        ensures
            r == SortOrder::Ascending,
    {
        SortOrder::Ascending
    }
}

impl SortOrder {
    /// How an order is shown.
    pub open spec fn shown(self) -> Seq<char> {
        match self {
            SortOrder::Ascending => "asc"@,
            SortOrder::Descending => "desc"@,
        }
    }

    pub fn to_string(&self) -> (r: String)
        ensures
            r@ == self.shown(),
    {
        match self {
            SortOrder::Ascending => "asc".to_owned(),
            SortOrder::Descending => "desc".to_owned(),
        }
    }
}

/// A field to sort by.
#[derive(Debug, PartialEq, Eq)]
pub struct SortSpec {
    pub field: Field,
    pub order: SortOrder,
}

impl SortSpec {
    pub fn field(&self) -> (r: &Field)
        ensures
            *r == self.field,
    {
        &self.field
    }

    pub fn order(&self) -> (r: SortOrder)
        ensures
            r == self.order,
    {
        self.order
    }

    pub fn into_parts(self) -> (r: (Field, SortOrder))
        ensures
            r.0 == self.field,
            r.1 == self.order,
    {
        (self.field, self.order)
    }
}

/// A function of the rows of a group.
#[derive(Clone, Copy, Debug, PartialEq, Eq, Hash, Structural)]
pub enum AggregateFunction {
    Count,
    Sum,
    Min,
    Max,
    Average,
}

impl AggregateFunction {
    /// How the function is written.
    pub open spec fn written(self) -> Seq<char> {
        match self {
            AggregateFunction::Count => "count"@,
            AggregateFunction::Sum => "sum"@,
            AggregateFunction::Min => "min"@,
            AggregateFunction::Max => "max"@,
            AggregateFunction::Average => "avg"@,
        }
    }

    pub fn as_str(self) -> (r: &'static str)
        ensures
            r@ == self.written(),
    {
        match self {
            AggregateFunction::Count => "count",
            AggregateFunction::Sum => "sum",
            AggregateFunction::Min => "min",
            AggregateFunction::Max => "max",
            AggregateFunction::Average => "avg",
        }
    }
}

/// An output field of a summary, and the function that gives it.
#[derive(Debug, PartialEq, Eq)]
pub struct AggregateExpression {
    pub function: AggregateFunction,
    pub argument: Option<Field>,
    pub output_field: Field,
}

impl AggregateExpression {
    pub fn function(&self) -> (r: AggregateFunction)
        ensures
            r == self.function,
    {
        self.function
    }

    pub fn argument(&self) -> (r: Option<&Field>)
        ensures
            match self.argument {
                Some(value) => r == Some(&value),
                None => r is None,
            },
    {
        self.argument.as_ref()
    }

    pub fn output_field(&self) -> (r: &Field)
        ensures
            *r == self.output_field,
    {
        &self.output_field
    }

    pub fn into_parts(self) -> (r: (AggregateFunction, Option<Field>, Field))
        ensures
            r.0 == self.function,
            r.1 == self.argument,
            r.2 == self.output_field,
    {
        (self.function, self.argument, self.output_field)
    }
}

/// What a stage does.
#[derive(Debug, PartialEq, Eq)]
pub enum StageKind {
    Filter(Expression),
    Project(Vec<Projection>),
    Aggregate { measures: Vec<AggregateExpression>, group_by: Vec<Field> },
    Sort(Vec<SortSpec>),
    Take(u64),
}

/// A stage, and the relation that it gives.
#[derive(Debug, PartialEq, Eq)]
pub struct Stage {
    pub kind: StageKind,
    pub output_relation: Relation,
}

impl Stage {
    pub fn kind(&self) -> (r: &StageKind)
        ensures
            *r == self.kind,
    {
        &self.kind
    }

    pub fn output_relation(&self) -> (r: &Relation)
        ensures
            *r == self.output_relation,
    {
        &self.output_relation
    }

    pub fn into_parts(self) -> (r: (StageKind, Relation))
        ensures
            r.0 == self.kind,
            r.1 == self.output_relation,
    {
        (self.kind, self.output_relation)
    }
}

/// A typed pipeline.
#[derive(Debug, PartialEq, Eq)]
pub struct Pipeline {
    pub source: Source,
    pub time_range: TimeRange,
    pub source_relation: Relation,
    pub stages: Vec<Stage>,
}

impl Pipeline {
    pub fn source(&self) -> (r: &Source)
        ensures
            *r == self.source,
    {
        &self.source
    }

    pub fn time_range(&self) -> (r: &TimeRange)
        ensures
            *r == self.time_range,
    {
        &self.time_range
    }

    pub fn source_relation(&self) -> (r: &Relation)
        ensures
            *r == self.source_relation,
    {
        &self.source_relation
    }

    pub fn stages(&self) -> (r: &[Stage])
        ensures
            r@ == self.stages@,
    {
        self.stages.as_slice()
    }

    /// The relation of the last stage, or that of the source.
    pub fn output_relation(&self) -> (r: &Relation)
        ensures
            *r == if self.stages@.len() == 0 {
                self.source_relation
            } else {
                self.stages@.last().output_relation
            },
    {
        let count: usize = self.stages.len();
        if count == 0 {
            &self.source_relation
        } else {
            &self.stages[count - 1].output_relation
        }
    }

    pub fn into_parts(self) -> (r: (Source, TimeRange, Relation, Vec<Stage>))
        ensures
            r.0 == self.source,
            r.1 == self.time_range,
            r.2 == self.source_relation,
            r.3 == self.stages,
    {
        (self.source, self.time_range, self.source_relation, self.stages)
    }
}

/// What a stage does.
pub enum StepView {
    Filter(Expression),
    Project(Seq<Projection>),
    Aggregate { measures: Seq<AggregateExpression>, group_by: Seq<Field> },
    Sort(Seq<SortSpec>),
    Take(u64),
}

impl View for StageKind {
    type V = StepView;

    open spec fn view(&self) -> StepView {
        match self {
            StageKind::Filter(expression) => StepView::Filter(*expression),
            StageKind::Project(projections) => StepView::Project(projections@),
            StageKind::Aggregate { measures, group_by } => StepView::Aggregate {
                measures: measures@,
                group_by: group_by@,
            },
            StageKind::Sort(specs) => StepView::Sort(specs@),
            StageKind::Take(count) => StepView::Take(*count),
        }
    }
}

/// What a stage does, and the fields that it gives.
pub struct StageView {
    pub kind: StepView,
    pub output: Seq<Field>,
}

impl View for Stage {
    type V = StageView;

    open spec fn view(&self) -> StageView {
        StageView { kind: self.kind@, output: self.output_relation.fields@ }
    }
}

/// What stages do.
pub open spec fn stage_views(stages: Seq<Stage>) -> Seq<StageView> {
    Seq::new(stages.len(), |i: int| stages[i]@)
}

/// What a pipeline is.
pub struct PipelineView {
    pub source: Source,
    pub start_inclusive: UtcInstant,
    pub end_exclusive: UtcInstant,
    pub relation: Seq<Field>,
    pub stages: Seq<StageView>,
}

impl View for Pipeline {
    type V = PipelineView;

    open spec fn view(&self) -> PipelineView {
        PipelineView {
            source: self.source,
            start_inclusive: self.time_range.spec_start(),
            end_exclusive: self.time_range.spec_end(),
            relation: self.source_relation.fields@,
            stages: stage_views(self.stages@),
        }
    }
}

} // verus!
