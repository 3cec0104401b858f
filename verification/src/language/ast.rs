//! The syntax tree of a query.

use vstd::prelude::*;

use crate::language::span::Span;

verus! {

/// A name that the user gave.
#[derive(Clone, Debug, PartialEq, Eq)]
pub struct Identifier {
    pub value: String,
    pub span: Span,
}

impl Identifier {
    pub fn as_str(&self) -> (r: &str)
        ensures
            r@ == self.value@,
    {
        self.value.as_str()
    }

    pub fn span(&self) -> (r: Span)
        ensures
            r == self.span,
    {
        self.span
    }
}

/// A name that begins with an at sign.
#[derive(Clone, Debug, PartialEq, Eq)]
pub struct SystemIdentifier {
    pub value: String,
    pub span: Span,
}

impl SystemIdentifier {
    pub fn as_str(&self) -> (r: &str)
        ensures
            r@ == self.value@,
    {
        self.value.as_str()
    }

    pub fn span(&self) -> (r: Span)
        ensures
            r == self.span,
    {
        self.span
    }
}

/// A field, by its name.
#[derive(Clone, Debug, PartialEq, Eq)]
pub enum FieldReference {
    User(Identifier),
    System(SystemIdentifier),
}

impl FieldReference {
    /// The name of the field.
    pub open spec fn name(self) -> String {
        match self {
            FieldReference::User(identifier) => identifier.value,
            FieldReference::System(identifier) => identifier.value,
        }
    }

    /// Where the name stands.
    pub open spec fn place(self) -> Span {
        match self {
            FieldReference::User(identifier) => identifier.span,
            FieldReference::System(identifier) => identifier.span,
        }
    }

    pub fn as_str(&self) -> (r: &str)
        ensures
            r@ == self.name()@,
    {
        match self {
            FieldReference::User(identifier) => identifier.as_str(),
            FieldReference::System(identifier) => identifier.as_str(),
        }
    }

    pub fn span(&self) -> (r: Span)
        ensures
            r == self.place(),
    {
        match self {
            FieldReference::User(identifier) => identifier.span,
            FieldReference::System(identifier) => identifier.span,
        }
    }

    /// The name of the field, as a text of its own.
    pub(crate) fn to_name(&self) -> (r: String)
        ensures
            r == self.name(),
    {
        match self {
            FieldReference::User(identifier) => identifier.value.clone(),
            FieldReference::System(identifier) => identifier.value.clone(),
        }
    }
}

/// A string.
#[derive(Clone, Debug, PartialEq, Eq)]
pub struct StringLiteral {
    pub value: String,
    pub span: Span,
}

impl StringLiteral {
    pub fn value(&self) -> (r: &str)
        ensures
            r@ == self.value@,
    {
        self.value.as_str()
    }

    pub fn span(&self) -> (r: Span)
        ensures
            r == self.span,
    {
        self.span
    }
}

/// What a literal denotes.
#[derive(Clone, Debug, PartialEq, Eq)]
pub enum LiteralKind {
    Null,
    Boolean(bool),
    Integer(u64),
    FloatingPoint(String),
    String(String),
}

/// A literal.
#[derive(Clone, Debug, PartialEq, Eq)]
pub struct Literal {
    pub kind: LiteralKind,
    pub span: Span,
}

impl Literal {
    pub fn kind(&self) -> (r: &LiteralKind)
        ensures
            *r == self.kind,
    {
        &self.kind
    }

    pub fn span(&self) -> (r: Span)
        ensures
            r == self.span,
    {
        self.span
    }

    pub fn as_string(&self) -> (r: Option<&str>)
        ensures
            match self.kind {
                LiteralKind::String(value) => r matches Some(text) && text@ == value@,
                _ => r is None,
            },
    {
        match &self.kind {
            LiteralKind::String(value) => Some(value.as_str()),
            _ => None,
        }
    }
}

/// The sign of a number.
#[derive(Clone, Copy, Debug, PartialEq, Eq, Hash, Structural)]
pub enum NumericSign {
    NonNegative,
    Negative,
}

/// The magnitude of a number.
#[derive(Clone, Debug, PartialEq, Eq)]
pub enum NumericLiteralKind {
    Integer(u64),
    FloatingPoint(String),
}

/// A number with its sign.
#[derive(Clone, Debug, PartialEq, Eq)]
pub struct SignedNumericLiteral {
    pub sign: NumericSign,
    pub kind: NumericLiteralKind,
    pub span: Span,
}

impl SignedNumericLiteral {
    pub fn sign(&self) -> (r: NumericSign)
        ensures
            r == self.sign,
    {
        self.sign
    }

    pub fn kind(&self) -> (r: &NumericLiteralKind)
        ensures
            *r == self.kind,
    {
        &self.kind
    }

    pub fn span(&self) -> (r: Span)
        ensures
            r == self.span,
    {
        self.span
    }
}

/// An integer with its sign.
#[derive(Clone, Debug, PartialEq, Eq)]
pub struct SignedIntegerLiteral {
    pub sign: NumericSign,
    pub magnitude: u64,
    pub span: Span,
}

impl SignedIntegerLiteral {
    pub fn sign(&self) -> (r: NumericSign)
        ensures
            r == self.sign,
    {
        self.sign
    }

    pub fn magnitude(&self) -> (r: u64)
        ensures
            r == self.magnitude,
    {
        self.magnitude
    }

    pub fn span(&self) -> (r: Span)
        ensures
            r == self.span,
    {
        self.span
    }
}

/// A numeric type.
#[derive(Clone, Copy, Debug, PartialEq, Eq, Hash, Structural)]
pub enum NumericType {
    Int32,
    Int64,
    UInt32,
    UInt64,
    Float32,
    Float64,
}

/// A type.
#[derive(Clone, Copy, Debug, PartialEq, Eq, Hash, Structural)]
pub enum LogicalType {
    Bool,
    Int32,
    Int64,
    UInt32,
    UInt64,
    Float32,
    Float64,
    Utf8,
    Datetime,
    Eid,
    Json,
}

/// What a constructor makes.
#[derive(Clone, Debug, PartialEq, Eq)]
pub enum ConstructorKind {
    Numeric { target: NumericType, literal: SignedNumericLiteral },
    Datetime(StringLiteral),
    Eid(StringLiteral),
}

/// A literal of a named type.
#[derive(Clone, Debug, PartialEq, Eq)]
pub struct Constructor {
    pub kind: ConstructorKind,
    pub span: Span,
}

impl Constructor {
    pub fn kind(&self) -> (r: &ConstructorKind)
        ensures
            *r == self.kind,
    {
        &self.kind
    }

    pub fn span(&self) -> (r: Span)
        ensures
            r == self.span,
    {
        self.span
    }
}

/// What a cast does with a value that the target cannot hold.
#[derive(Clone, Copy, Debug, PartialEq, Eq, Hash, Structural)]
pub enum CastKind {
    Strict,
    NullOnFailure,
}

/// A cast.
#[derive(Debug, PartialEq, Eq)]
pub struct CastExpression {
    pub kind: CastKind,
    pub expression: Box<Expression>,
    pub target: LogicalType,
    pub span: Span,
}

impl CastExpression {
    pub fn kind(&self) -> (r: CastKind)
        ensures
            r == self.kind,
    {
        self.kind
    }

    pub fn expression(&self) -> (r: &Expression)
        ensures
            *r == *self.expression,
    {
        &self.expression
    }

    pub fn target(&self) -> (r: LogicalType)
        ensures
            r == self.target,
    {
        self.target
    }

    pub fn span(&self) -> (r: Span)
        ensures
            r == self.span,
    {
        self.span
    }
}

/// What is asked of the remainder of a record.
#[derive(Clone, Copy, Debug, PartialEq, Eq, Hash, Structural)]
pub enum RemainderFunction {
    Value,
    Exists,
}

/// An access to the remainder of a record.
#[derive(Clone, Debug, PartialEq, Eq)]
pub struct RemainderExpression {
    pub function: RemainderFunction,
    pub key: StringLiteral,
    pub span: Span,
}

impl RemainderExpression {
    pub fn function(&self) -> (r: RemainderFunction)
        ensures
            r == self.function,
    {
        self.function
    }

    pub fn key(&self) -> (r: &StringLiteral)
        ensures
            *r == self.key,
    {
        &self.key
    }

    pub fn span(&self) -> (r: Span)
        ensures
            r == self.span,
    {
        self.span
    }
}

/// An operator of one operand.
#[derive(Clone, Copy, Debug, PartialEq, Eq, Hash, Structural)]
pub enum UnaryOperator {
    Not,
    Negate,
}

/// An operator of two operands.
#[derive(Clone, Copy, Debug, PartialEq, Eq, Hash, Structural)]
pub enum BinaryOperator {
    Add,
    Subtract,
    Multiply,
    Divide,
    Equal,
    NotEqual,
    GreaterThan,
    GreaterThanOrEqual,
    LessThan,
    LessThanOrEqual,
    And,
    Or,
}

/// What an expression is.
#[derive(Debug, PartialEq, Eq)]
pub enum ExpressionKind {
    Literal(Literal),
    Field(FieldReference),
    Constructor(Constructor),
    Cast(CastExpression),
    Remainder(RemainderExpression),
    Unary { operator: UnaryOperator, operand: Box<Expression> },
    Binary { operator: BinaryOperator, left: Box<Expression>, right: Box<Expression> },
}

/// An expression.
#[derive(Debug, PartialEq, Eq)]
pub struct Expression {
    pub kind: ExpressionKind,
    pub span: Span,
}

impl Expression {
    pub fn kind(&self) -> (r: &ExpressionKind)
        ensures
            *r == self.kind,
    {
        &self.kind
    }

    pub fn span(&self) -> (r: Span)
        ensures
            r == self.span,
    {
        self.span
    }
}

/// A unit of time.
#[derive(Clone, Copy, Debug, PartialEq, Eq, Hash, Structural)]
pub enum TimeUnit {
    Second,
    Minute,
    Hour,
    Day,
}

/// The direction of a shift in time.
#[derive(Clone, Copy, Debug, PartialEq, Eq, Hash, Structural)]
pub enum TimeDirection {
    Forward,
    Backward,
}

/// A number of units, at least one.
#[derive(Clone, Copy, Debug, PartialEq, Eq, Hash, Structural)]
pub struct Magnitude(pub u64);

impl Magnitude {
    pub fn new(value: u64) -> (r: Option<Self>)
        ensures
            r == if value == 0 {
                None
            } else {
                Some(Magnitude(value))
            },
    {
        if value == 0 {
            None
        } else {
            Some(Magnitude(value))
        }
    }

    pub fn get(self) -> (r: u64)
        ensures
            r == self.0,
    {
        self.0
    }
}

/// A step of a relative time.
#[derive(Clone, Debug, PartialEq, Eq)]
pub enum TimeOperationKind {
    Truncate(TimeUnit),
    Shift { direction: TimeDirection, magnitude: Magnitude, unit: TimeUnit },
}

/// A step of a relative time, and where it stands.
#[derive(Clone, Debug, PartialEq, Eq)]
pub struct TimeOperation {
    pub kind: TimeOperationKind,
    pub span: Span,
}

impl TimeOperation {
    pub fn kind(&self) -> (r: &TimeOperationKind)
        ensures
            *r == self.kind,
    {
        &self.kind
    }

    pub fn span(&self) -> (r: Span)
        ensures
            r == self.span,
    {
        self.span
    }
}

/// What a bound of a source is.
#[derive(Clone, Debug, PartialEq, Eq)]
pub enum TimeExpressionKind {
    Datetime(StringLiteral),
    Now,
    Relative(Vec<TimeOperation>),
}

/// A bound of a source.
#[derive(Clone, Debug, PartialEq, Eq)]
pub struct TimeExpression {
    pub kind: TimeExpressionKind,
    pub span: Span,
}

impl TimeExpression {
    pub fn kind(&self) -> (r: &TimeExpressionKind)
        ensures
            *r == self.kind,
    {
        &self.kind
    }

    pub fn span(&self) -> (r: Span)
        ensures
            r == self.span,
    {
        self.span
    }
}

/// The source of a query.
#[derive(Clone, Debug, PartialEq, Eq)]
pub struct SourceExpression {
    pub name: Identifier,
    pub start_inclusive: Option<TimeExpression>,
    pub end_exclusive: Option<TimeExpression>,
    pub span: Span,
}

impl SourceExpression {
    pub fn name(&self) -> (r: &Identifier)
        ensures
            *r == self.name,
    {
        &self.name
    }

    pub fn start_inclusive(&self) -> (r: Option<&TimeExpression>)
        ensures
            match self.start_inclusive {
                Some(value) => r == Some(&value),
                None => r is None,
            },
    {
        self.start_inclusive.as_ref()
    }

    pub fn end_exclusive(&self) -> (r: Option<&TimeExpression>)
        ensures
            match self.end_exclusive {
                Some(value) => r == Some(&value),
                None => r is None,
            },
    {
        self.end_exclusive.as_ref()
    }

    pub fn span(&self) -> (r: Span)
        ensures
            r == self.span,
    {
        self.span
    }
}

/// A projection with a name.
#[derive(Debug, PartialEq, Eq)]
pub struct ComputedProjection {
    pub alias: Identifier,
    pub expression: Expression,
    pub span: Span,
}

impl ComputedProjection {
    pub fn alias(&self) -> (r: &Identifier)
        ensures
            *r == self.alias,
    {
        &self.alias
    }

    pub fn expression(&self) -> (r: &Expression)
        ensures
            *r == self.expression,
    {
        &self.expression
    }

    pub fn span(&self) -> (r: Span)
        ensures
            r == self.span,
    {
        self.span
    }
}

/// An output field of a projection.
#[derive(Debug, PartialEq, Eq)]
pub enum Projection {
    Field(FieldReference),
    Computed(ComputedProjection),
    Unaliased(Expression),
}

impl Projection {
    /// Where the projection stands.
    pub open spec fn place(self) -> Span {
        match self {
            Projection::Field(field) => field.place(),
            Projection::Computed(projection) => projection.span,
            Projection::Unaliased(expression) => expression.span,
        }
    }

    pub fn span(&self) -> (r: Span)
        ensures
            r == self.place(),
    {
        match self {
            Projection::Field(field) => field.span(),
            Projection::Computed(projection) => projection.span,
            Projection::Unaliased(expression) => expression.span,
        }
    }
}

/// The direction of a sort.
#[derive(Clone, Copy, Debug, PartialEq, Eq, Hash, Structural)]
pub enum SortDirection {
    Ascending,
    Descending,
}

/// A field to sort by.
#[derive(Clone, Debug, PartialEq, Eq)]
pub struct SortItem {
    pub field: FieldReference,
    pub direction: SortDirection,
    pub span: Span,
}

impl SortItem {
    pub fn field(&self) -> (r: &FieldReference)
        ensures
            *r == self.field,
    {
        &self.field
    }

    pub fn direction(&self) -> (r: SortDirection)
        ensures
            r == self.direction,
    {
        self.direction
    }

    pub fn span(&self) -> (r: Span)
        ensures
            r == self.span,
    {
        self.span
    }
}

/// A function of the rows of a group.
#[derive(Clone, Copy, Debug, PartialEq, Eq, Hash, Structural)]
pub enum AggregateFunction {
    Count,
    Sum,
    Min,
    Max,
    Avg,
}

impl AggregateFunction {
    /// How the function is written.
    pub open spec fn written(self) -> Seq<char> {
        match self {
            AggregateFunction::Count => "count"@,
            AggregateFunction::Sum => "sum"@,
            AggregateFunction::Min => "min"@,
            AggregateFunction::Max => "max"@,
            AggregateFunction::Avg => "avg"@,
        }
    }

    pub fn as_str(self) -> (r: &'static str)
        ensures
            r@ == self.written(),
    {
        match self {
            AggregateFunction::Count => "count",
            AggregateFunction::Sum => "sum",
            AggregateFunction::Min => "min",
            AggregateFunction::Max => "max",
            AggregateFunction::Avg => "avg",
        }
    }
}

/// A function applied to the rows of a group.
#[derive(Clone, Debug, PartialEq, Eq)]
pub struct AggregateCall {
    pub function: AggregateFunction,
    pub argument: Option<FieldReference>,
    pub span: Span,
}

impl AggregateCall {
    pub fn function(&self) -> (r: AggregateFunction)
        ensures
            r == self.function,
    {
        self.function
    }

    pub fn argument(&self) -> (r: Option<&FieldReference>)
        ensures
            match self.argument {
                Some(value) => r == Some(&value),
                None => r is None,
            },
    {
        self.argument.as_ref()
    }

    pub fn span(&self) -> (r: Span)
        ensures
            r == self.span,
    {
        self.span
    }
}

/// An output field of a summary.
#[derive(Clone, Debug, PartialEq, Eq)]
pub struct Measure {
    pub alias: Option<Identifier>,
    pub aggregate: AggregateCall,
    pub span: Span,
}

impl Measure {
    pub fn alias(&self) -> (r: Option<&Identifier>)
        ensures
            match self.alias {
                Some(value) => r == Some(&value),
                None => r is None,
            },
    {
        self.alias.as_ref()
    }

    pub fn aggregate(&self) -> (r: &AggregateCall)
        ensures
            *r == self.aggregate,
    {
        &self.aggregate
    }

    pub fn span(&self) -> (r: Span)
        ensures
            r == self.span,
    {
        self.span
    }
}

/// What a stage does.
#[derive(Debug, PartialEq, Eq)]
pub enum StageKind {
    Filter(Expression),
    Project(Vec<Projection>),
    Sort(Vec<SortItem>),
    Take(SignedIntegerLiteral),
    Summarize { measures: Vec<Measure>, group_by: Vec<FieldReference> },
}

/// A stage of a query.
#[derive(Debug, PartialEq, Eq)]
pub struct Stage {
    pub kind: StageKind,
    pub span: Span,
}

impl Stage {
    pub fn kind(&self) -> (r: &StageKind)
        ensures
            *r == self.kind,
    {
        &self.kind
    }

    pub fn span(&self) -> (r: Span)
        ensures
            r == self.span,
    {
        self.span
    }
}

/// A query.
#[derive(Debug, PartialEq, Eq)]
pub struct Query {
    pub source: SourceExpression,
    pub stages: Vec<Stage>,
    pub span: Span,
}

impl Query {
    pub fn source(&self) -> (r: &SourceExpression)
        ensures
            *r == self.source,
    {
        &self.source
    }

    pub fn stages(&self) -> (r: &[Stage])
        ensures
            r@ == self.stages@,
    {
        self.stages.as_slice()
    }

    pub fn span(&self) -> (r: Span)
        ensures
            r == self.span,
    {
        self.span
    }
}

/// What a bound of a source is.
pub enum BoundView {
    Datetime(StringLiteral),
    Now,
    Relative(Seq<TimeOperation>),
}

/// What a bound of a source is, and where it stands.
pub struct TimeView {
    pub kind: BoundView,
    pub span: Span,
}

impl View for TimeExpression {
    type V = TimeView;

    open spec fn view(&self) -> TimeView {
        TimeView {
            kind: match self.kind {
                TimeExpressionKind::Datetime(value) => BoundView::Datetime(value),
                TimeExpressionKind::Now => BoundView::Now,
                TimeExpressionKind::Relative(operations) => BoundView::Relative(operations@),
            },
            span: self.span,
        }
    }
}

/// What an optional bound is.
pub open spec fn optional_time(bound: Option<TimeExpression>) -> Option<TimeView> {
    match bound {
        Some(bound) => Some(bound@),
        None => None,
    }
}

/// What the source of a query is.
pub struct SourceView {
    pub name: Identifier,
    pub start_inclusive: Option<TimeView>,
    pub end_exclusive: Option<TimeView>,
    pub span: Span,
}

impl View for SourceExpression {
    type V = SourceView;

    open spec fn view(&self) -> SourceView {
        SourceView {
            name: self.name,
            start_inclusive: optional_time(self.start_inclusive),
            end_exclusive: optional_time(self.end_exclusive),
            span: self.span,
        }
    }
}

/// What a stage does.
pub enum StepView {
    Filter(Expression),
    Project(Seq<Projection>),
    Sort(Seq<SortItem>),
    Take(SignedIntegerLiteral),
    Summarize { measures: Seq<Measure>, group_by: Seq<FieldReference> },
}

/// What a stage does, and where it stands.
pub struct StageView {
    pub kind: StepView,
    pub span: Span,
}

impl View for Stage {
    type V = StageView;

    open spec fn view(&self) -> StageView {
        StageView {
            kind: match self.kind {
                StageKind::Filter(expression) => StepView::Filter(expression),
                StageKind::Project(projections) => StepView::Project(projections@),
                StageKind::Sort(items) => StepView::Sort(items@),
                StageKind::Take(value) => StepView::Take(value),
                StageKind::Summarize { measures, group_by } => StepView::Summarize {
                    measures: measures@,
                    group_by: group_by@,
                },
            },
            span: self.span,
        }
    }
}

/// What stages do.
pub open spec fn stage_views(stages: Seq<Stage>) -> Seq<StageView> {
    Seq::new(stages.len(), |i: int| stages[i]@)
}

/// What a query is.
pub struct QueryView {
    pub source: SourceView,
    pub stages: Seq<StageView>,
    pub span: Span,
}

impl View for Query {
    type V = QueryView;

    open spec fn view(&self) -> QueryView {
        QueryView {
            source: self.source@,
            stages: stage_views(self.stages@),
            span: self.span,
        }
    }
}

} // verus!
